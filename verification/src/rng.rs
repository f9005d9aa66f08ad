use vstd::prelude::*;

verus! {

/// The state a generator starts from: the seed stirred by a constant, so
/// that low-entropy seeds (0, 1, 2, ...) diverge before the first draw.
pub open spec fn stirred(seed: u64) -> u64 {
    seed ^ 0x9E3779B97F4A7C15
}

/// One xorshift step of the generator state, diverted off the scheme's one
/// fixed point at zero.
pub open spec fn next_state(s: u64) -> u64 {
    let a = s ^ (s >> 12);
    let b = a ^ (a << 25);
    let c = b ^ (b >> 27);
    if c == 0 {
        0x2545F4914F6CDD1D
    } else {
        c
    }
}

/// The 64-bit value a state yields: the state scrambled by a constant
/// multiplier.
pub open spec fn draw_of(s: u64) -> u64 {
    s.wrapping_mul(0x2545F4914F6CDD1D)
}

/// The largest draw that plain remainder reduction by `b` maps onto the
/// residues evenly: draws above it would over-represent the low residues.
pub open spec fn even_cutoff(b: u64) -> int {
    u64::MAX - (((u64::MAX % b) as int + 1) % (b as int))
}

/// The state and draw after up to `fuel` further rejections of draws above
/// the even cutoff for `b`.
pub open spec fn sampled(s: u64, b: u64, fuel: nat) -> (u64, u64)
    decreases fuel,
{
    let s1 = next_state(s);
    let d = draw_of(s1);
    if d <= even_cutoff(b) || fuel == 0 {
        (s1, d)
    } else {
        sampled(s1, b, (fuel - 1) as nat)
    }
}

/// A small deterministic pseudo-random generator (an xorshift-star step)
/// used to scatter bombs over the field.  Every draw is a function of the
/// seed alone, so a fixed seed reproduces the same field.
pub struct Rng {
    state: u64,
}

impl Rng {
    /// The generator's current state.
    pub closed spec fn spec_state(self) -> u64 {
        self.state
    }

    /// A generator starting from `seed`.
    pub fn new(seed: u64) -> (r: Rng)
        ensures
            r.spec_state() == stirred(seed),
    {
        Rng { state: seed ^ 0x9E3779B97F4A7C15 }
    }

    /// The next raw 64-bit draw, advancing the state by one step.
    pub fn next_u64(&mut self) -> (r: u64)
        ensures
            final(self).spec_state() == next_state(old(self).spec_state()),
            r == draw_of(final(self).spec_state()),
    {
        let mut s = self.state;
        s = s ^ (s >> 12);
        s = s ^ (s << 25);
        s = s ^ (s >> 27);
        if s == 0 {
            s = 0x2545F4914F6CDD1D;
        }
        self.state = s;
        s.wrapping_mul(0x2545F4914F6CDD1D)
    }

    /// Draws until the raw value falls at or below the even cutoff for
    /// `bound` — rejection sampling, so that the final remainder reduction
    /// does not skew towards the low residues — giving up after `fuel`
    /// rejections.
    fn sample_evenly(&mut self, bound: u64, fuel: u32) -> (r: u64)
        requires
            bound > 0,
        ensures
            (final(self).spec_state(), r) == sampled(old(self).spec_state(), bound, fuel as nat),
        decreases fuel,
    {
        let d = self.next_u64();
        let cutoff = u64::MAX - (u64::MAX % bound + 1) % bound;
        if d <= cutoff || fuel == 0 {
            d
        } else {
            self.sample_evenly(bound, fuel - 1)
        }
    }

    /// A draw below `bound`, reduced from an evenly-sampled 64-bit draw.
    pub fn next_below(&mut self, bound: u32) -> (r: u32)
        requires
            bound > 0,
        ensures
            r < bound,
            ({
                let (s, d) = sampled(old(self).spec_state(), bound as u64, 63);
                final(self).spec_state() == s && r == d % (bound as u64)
            }),
    {
        let raw = self.sample_evenly(bound as u64, 63);
        (raw % (bound as u64)) as u32
    }
}

} // verus!
