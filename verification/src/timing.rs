//! Instrumentation for chain execution timing.
//!
//! Timings are carried as nanosecond counts and sizes in bytes; the
//! clock readings themselves come from the operating system and
//! nothing is promised of their values.

use vstd::prelude::*;
use crate::text::{spec_dec_chars, u64_to_string};

verus! {

/// Relies on std's `SystemTime::now`: milliseconds since the Unix
/// epoch as the wall clock reports them.  Nothing is promised of the
/// value.
#[verifier::external_body]
pub fn timestamp() -> (r: u64) {
    match std::time::SystemTime::now().duration_since(std::time::UNIX_EPOCH) {
        Ok(d) => d.as_millis() as u64,
        Err(_) => 0,
    }
}

/// Relies on std's `SystemTime::now`: nanoseconds since the Unix
/// epoch as the wall clock reports them.  Nothing is promised of the
/// value.
#[verifier::external_body]
fn now_nanos() -> (r: u64) {
    match std::time::SystemTime::now().duration_since(std::time::UNIX_EPOCH) {
        Ok(d) => d.as_nanos() as u64,
        Err(_) => 0,
    }
}

/// Timer helper for measuring operations, in nanoseconds.
#[derive(Debug, Clone, Copy)]
pub struct Timer {
    pub start_ns: u64,
}

impl Timer {
    /// Start a timer at the current instant.
    pub fn start() -> (r: Timer) {
        Timer { start_ns: now_nanos() }
    }

    /// Nanoseconds elapsed since the timer started (zero if the
    /// clock moved backwards).
    pub fn elapsed(&self) -> (r: u64) {
        let n = now_nanos();
        if n >= self.start_ns {
            n - self.start_ns
        } else {
            0
        }
    }

    /// Consume the timer, returning the elapsed nanoseconds.
    pub fn stop(self) -> (r: u64) {
        self.elapsed()
    }
}

/// Timing for a single hop in a chain, in nanoseconds and bytes.
#[derive(Debug, Clone)]
pub struct HopTiming {
    pub hop_name: String,
    pub hop_index: u32,
    pub pca_deserialize: u64,
    pub poc_create: u64,
    pub poc_serialize: u64,
    pub cat_call: u64,
    pub pca_received_size: usize,
    pub pca_new_size: usize,
    pub poc_size: usize,
    pub business_logic: u64,
    pub total: u64,
}

impl Default for HopTiming {
    /// All counters zero and an empty hop name.
    fn default() -> (r: HopTiming)
        ensures
            r.hop_name@.len() == 0,
            r.hop_index == 0,
            r.pca_deserialize == 0,
            r.poc_create == 0,
            r.poc_serialize == 0,
            r.cat_call == 0,
            r.pca_received_size == 0,
            r.pca_new_size == 0,
            r.poc_size == 0,
            r.business_logic == 0,
            r.total == 0,
    {
        HopTiming {
            hop_name: String::new(),
            hop_index: 0,
            pca_deserialize: 0,
            poc_create: 0,
            poc_serialize: 0,
            cat_call: 0,
            pca_received_size: 0,
            pca_new_size: 0,
            poc_size: 0,
            business_logic: 0,
            total: 0,
        }
    }
}

/// Timing for an entire chain execution.
#[derive(Debug, Clone)]
pub struct ChainTiming {
    pub hops: Vec<HopTiming>,
    pub total: u64,
    pub initial_pca_create: u64,
    pub initial_pca_sign: u64,
    pub initial_pca_size: usize,
}

impl Default for ChainTiming {
    /// No hops and all counters zero.
    fn default() -> (r: ChainTiming)
        ensures
            r.hops@.len() == 0,
            r.total == 0,
            r.initial_pca_create == 0,
            r.initial_pca_sign == 0,
            r.initial_pca_size == 0,
    {
        ChainTiming {
            hops: Vec::new(),
            total: 0,
            initial_pca_create: 0,
            initial_pca_sign: 0,
            initial_pca_size: 0,
        }
    }
}

/// The unit and scale a duration is rendered in.
pub open spec fn spec_format_duration(ns: u64) -> Seq<char> {
    if ns >= 1_000_000_000 {
        spec_scaled(ns as nat, 1_000_000_000) + " s"@
    } else if ns >= 1_000_000 {
        spec_scaled(ns as nat, 1_000_000) + " ms"@
    } else if ns >= 1_000 {
        spec_scaled(ns as nat, 1_000) + " us"@
    } else {
        spec_dec_chars(ns as nat) + " ns"@
    }
}

/// Whole part, a dot, and two (truncated) fractional digits of
/// `ns / unit`.
pub open spec fn spec_scaled(ns: nat, unit: nat) -> Seq<char>
    recommends
        unit >= 100,
{
    spec_dec_chars(ns / unit) + "."@ + spec_dec_chars((ns % unit) / (unit / 100) / 10)
        + spec_dec_chars((ns % unit) / (unit / 100) % 10)
}

fn push_scaled(s: &mut String, ns: u64, unit: u64)
    requires
        unit == 1_000_000_000 || unit == 1_000_000 || unit == 1_000,
    ensures
        final(s)@ =~= old(s)@ + spec_scaled(ns as nat, unit as nat),
{
    let whole = u64_to_string(ns / unit);
    s.append(whole.as_str());
    s.append(".");
    proof {
        reveal_strlit(".");
    }
    let frac = (ns % unit) / (unit / 100);
    let d1 = u64_to_string(frac / 10);
    let d2 = u64_to_string(frac % 10);
    s.append(d1.as_str());
    s.append(d2.as_str());
    assert(s@ =~= old(s)@ + spec_scaled(ns as nat, unit as nat));
}

/// Render a duration in nanoseconds with the largest fitting unit
/// and two fractional digits (truncated).
pub fn format_duration(ns: u64) -> (r: String)
    ensures
        r@ == spec_format_duration(ns),
{
    let mut s = String::new();
    if ns >= 1_000_000_000 {
        push_scaled(&mut s, ns, 1_000_000_000);
        s.append(" s");
    } else if ns >= 1_000_000 {
        push_scaled(&mut s, ns, 1_000_000);
        s.append(" ms");
    } else if ns >= 1_000 {
        push_scaled(&mut s, ns, 1_000);
        s.append(" us");
    } else {
        let d = u64_to_string(ns);
        s.append(d.as_str());
        s.append(" ns");
    }
    proof {
        assert(s@ =~= spec_format_duration(ns));
    }
    s
}

} // verus!
