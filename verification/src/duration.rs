use vstd::prelude::*;

verus! {

/// Nanoseconds in one second.
pub const NANOS_PER_SEC: u32 = 1_000_000_000;

/// Nanoseconds in one microsecond.
pub const NANOS_PER_MICRO: u32 = 1_000;

/// One elapsed-time measurement: non-negative, with nanosecond precision.
///
/// The value is kept normalized: the nanosecond part is always below one
/// second. A sample is therefore fully determined by its total number of
/// nanoseconds, which is what `view` returns.
#[derive(Clone, Copy, Debug, PartialEq, Eq, Structural)]
pub struct DurationSample {
    secs: u64,
    nanos: u32,
}

impl DurationSample {
    #[verifier::type_invariant]
    pub closed spec fn wf(self) -> bool {
        self.nanos < NANOS_PER_SEC
    }

    /// The sample as a total number of nanoseconds.
    pub closed spec fn total_nanos(self) -> int {
        self.secs * (NANOS_PER_SEC as int) + self.nanos
    }

    /// The largest total-nanosecond value a sample can hold.
    pub open spec fn max_total_nanos() -> int {
        u64::MAX * (NANOS_PER_SEC as int) + (NANOS_PER_SEC - 1)
    }

    /// A well-formed sample holds at most the largest representable total.
    pub proof fn lemma_wf_bounds(d: DurationSample)
        requires
            d.wf(),
        ensures
            0 <= d.total_nanos() <= Self::max_total_nanos(),
    {
        assert(d.secs * (NANOS_PER_SEC as int) <= u64::MAX * (NANOS_PER_SEC as int))
            by (nonlinear_arith)
            requires d.secs <= u64::MAX;
        assert(d.secs * (NANOS_PER_SEC as int) >= 0) by (nonlinear_arith)
            requires d.secs >= 0;
    }

    /// Every sample is a non-negative amount of time.
    pub broadcast proof fn lemma_total_nanos_nonneg(d: DurationSample)
        ensures
            #[trigger] d.total_nanos() >= 0,
    {
        assert(d.secs * (NANOS_PER_SEC as int) >= 0) by (nonlinear_arith)
            requires d.secs >= 0;
    }

    /// Build a sample from whole seconds plus a nanosecond part; a nanosecond
    /// part of one second or more carries into the seconds.
    pub fn new(secs: u64, nanos: u32) -> (r: Self)
        requires
            secs + nanos as int / (NANOS_PER_SEC as int) <= u64::MAX,
        ensures
            r@ == secs * (NANOS_PER_SEC as int) + nanos,
    {
        let carry: u32 = nanos / NANOS_PER_SEC;
        let rest: u32 = nanos % NANOS_PER_SEC;
        proof {
            assert(carry * (NANOS_PER_SEC as int) + rest == nanos) by (nonlinear_arith)
                requires
                    carry == nanos as int / (NANOS_PER_SEC as int),
                    rest == nanos as int % (NANOS_PER_SEC as int),
                    NANOS_PER_SEC > 0;
        }
        let r = DurationSample { secs: secs + carry as u64, nanos: rest };
        proof {
            assert(r.total_nanos() == secs * (NANOS_PER_SEC as int) + nanos) by (nonlinear_arith)
                requires
                    r.secs == secs + carry,
                    r.nanos == rest,
                    carry * (NANOS_PER_SEC as int) + rest == nanos,
                    r.total_nanos() == r.secs * (NANOS_PER_SEC as int) + r.nanos;
        }
        r
    }

    /// Build a sample from whole seconds.
    pub fn from_secs(secs: u64) -> (r: Self)
        ensures
            r@ == secs * (NANOS_PER_SEC as int),
    {
        DurationSample { secs, nanos: 0 }
    }

    /// Build a sample from a number of nanoseconds.
    pub fn from_nanos(nanos: u64) -> (r: Self)
        ensures
            r@ == nanos,
    {
        let secs: u64 = nanos / (NANOS_PER_SEC as u64);
        let rest: u32 = (nanos % (NANOS_PER_SEC as u64)) as u32;
        proof {
            assert(secs * (NANOS_PER_SEC as int) + rest == nanos) by (nonlinear_arith)
                requires
                    secs == nanos as int / (NANOS_PER_SEC as int),
                    rest == nanos as int % (NANOS_PER_SEC as int),
                    NANOS_PER_SEC > 0;
        }
        DurationSample { secs, nanos: rest }
    }

    /// Build a sample from a number of microseconds.
    pub fn from_micros(micros: u64) -> (r: Self)
        ensures
            r@ == micros * (NANOS_PER_MICRO as int),
    {
        let secs: u64 = micros / 1_000_000;
        let rest_micros: u64 = micros % 1_000_000;
        let rest: u32 = (rest_micros as u32) * NANOS_PER_MICRO;
        proof {
            assert(secs * 1_000_000 + rest_micros == micros) by (nonlinear_arith)
                requires
                    secs == micros as int / 1_000_000,
                    rest_micros == micros as int % 1_000_000;
            assert((secs * 1_000_000 + rest_micros) * 1000 == secs * (NANOS_PER_SEC as int) + rest_micros * 1000)
                by (nonlinear_arith);
        }
        DurationSample { secs, nanos: rest }
    }

    /// Build a sample from a total number of nanoseconds.
    pub fn from_total_nanos(total: u128) -> (r: Self)
        requires
            total <= Self::max_total_nanos(),
        ensures
            r@ == total,
    {
        let secs: u64 = (total / (NANOS_PER_SEC as u128)) as u64;
        let rest: u32 = (total % (NANOS_PER_SEC as u128)) as u32;
        proof {
            assert(total as int / (NANOS_PER_SEC as int) <= u64::MAX) by (nonlinear_arith)
                requires total <= u64::MAX * (NANOS_PER_SEC as int) + (NANOS_PER_SEC - 1);
            assert((total as int / (NANOS_PER_SEC as int)) * (NANOS_PER_SEC as int)
                + total as int % (NANOS_PER_SEC as int) == total) by (nonlinear_arith)
                requires NANOS_PER_SEC > 0;
        }
        DurationSample { secs, nanos: rest }
    }

    /// The whole-second part.
    pub fn secs(&self) -> (r: u64)
        ensures
            r == self@ / (NANOS_PER_SEC as int),
    {
        proof {
            use_type_invariant(self);
            assert(self.secs == self.total_nanos() / (NANOS_PER_SEC as int)) by (nonlinear_arith)
                requires
                    self.total_nanos() == self.secs * (NANOS_PER_SEC as int) + self.nanos,
                    self.nanos < NANOS_PER_SEC;
        }
        self.secs
    }

    /// The nanosecond part below one second.
    pub fn subsec_nanos(&self) -> (r: u32)
        ensures
            r == self@ % (NANOS_PER_SEC as int),
    {
        proof {
            use_type_invariant(self);
            assert(self.nanos == self.total_nanos() % (NANOS_PER_SEC as int)) by (nonlinear_arith)
                requires
                    self.total_nanos() == self.secs * (NANOS_PER_SEC as int) + self.nanos,
                    self.nanos < NANOS_PER_SEC;
        }
        self.nanos
    }

    /// The sample as a total number of nanoseconds.
    pub fn as_nanos(&self) -> (r: u128)
        ensures
            r == self@,
    {
        proof {
            use_type_invariant(self);
            assert(self.secs * (NANOS_PER_SEC as int) <= u64::MAX * (NANOS_PER_SEC as int))
                by (nonlinear_arith)
                requires self.secs <= u64::MAX;
        }
        (self.secs as u128) * (NANOS_PER_SEC as u128) + (self.nanos as u128)
    }

    /// The sample as whole microseconds, rounded down.
    pub fn as_micros(&self) -> (r: u128)
        ensures
            r == self@ / (NANOS_PER_MICRO as int),
    {
        let total = self.as_nanos();
        total / (NANOS_PER_MICRO as u128)
    }
}

impl Default for DurationSample {
    /// The zero-length sample.
    fn default() -> (r: Self)
        ensures
            r@ == 0,
    {
        DurationSample { secs: 0, nanos: 0 }
    }
}

impl View for DurationSample {
    type V = int;

    open spec fn view(&self) -> int {
        self.total_nanos()
    }
}

} // verus!
