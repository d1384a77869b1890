//! Activation patterns: which of the four candidate LED slots are lit for one
//! frame of the rotating display.
//!
//! A frame may light up to two LEDs per panel (one per side).  A pattern with
//! no lit slot is invalid and never enters the search, so the search space is
//! the 15 non-empty patterns, enumerated here as a fixed table in ascending
//! bit-code order (the documented tie-break order of the frame search).

use vstd::prelude::*;

verus! {

/// Which of the four candidate LED slots are lit for one frame:
/// panel 1 side A, panel 1 side B, panel 2 side A, panel 2 side B.
#[derive(Clone, Copy, Debug, PartialEq, Eq, Structural)]
pub struct ActivationPattern {
    pub p1a: bool,
    pub p1b: bool,
    pub p2a: bool,
    pub p2b: bool,
}

/// The pattern whose lit slots are exactly the set bits of `c`
/// (bit 0 is panel 1 side A, bit 3 is panel 2 side B).
pub open spec fn pattern_of_code(c: int) -> ActivationPattern {
    ActivationPattern {
        p1a: c % 2 == 1,
        p1b: (c / 2) % 2 == 1,
        p2a: (c / 4) % 2 == 1,
        p2b: (c / 8) % 2 == 1,
    }
}

impl ActivationPattern {
    /// Number of lit slots on panel 1 (0 to 2).
    pub open spec fn spec_group1_count(self) -> int {
        (if self.p1a { 1int } else { 0int }) + (if self.p1b { 1int } else { 0int })
    }

    /// Number of lit slots on panel 2 (0 to 2).
    pub open spec fn spec_group2_count(self) -> int {
        (if self.p2a { 1int } else { 0int }) + (if self.p2b { 1int } else { 0int })
    }

    /// Total number of lit slots (0 to 4).
    pub open spec fn spec_lit_count(self) -> int {
        self.spec_group1_count() + self.spec_group2_count()
    }

    /// A pattern is usable only if at least one slot is lit.
    pub open spec fn is_nonempty(self) -> bool {
        self.spec_lit_count() >= 1
    }

    /// The slot at position `i`, in the order panel 1 side A, panel 1 side B,
    /// panel 2 side A, panel 2 side B.
    pub open spec fn spec_slot(self, i: int) -> bool {
        if i == 0 {
            self.p1a
        } else if i == 1 {
            self.p1b
        } else if i == 2 {
            self.p2a
        } else {
            self.p2b
        }
    }

    /// The bit code of the pattern: slot `k` lit contributes `2^k`.
    pub open spec fn spec_code(self) -> int {
        (if self.p1a { 1int } else { 0int }) + (if self.p1b { 2int } else { 0int })
            + (if self.p2a { 4int } else { 0int }) + (if self.p2b { 8int } else { 0int })
    }

    pub fn group1_count(&self) -> (n: usize)
        ensures
            n == self.spec_group1_count(),
    {
        (if self.p1a { 1 } else { 0 }) + (if self.p1b { 1 } else { 0 })
    }

    pub fn group2_count(&self) -> (n: usize)
        ensures
            n == self.spec_group2_count(),
    {
        (if self.p2a { 1 } else { 0 }) + (if self.p2b { 1 } else { 0 })
    }

    pub fn lit_count(&self) -> (n: usize)
        ensures
            n == self.spec_lit_count(),
    {
        self.group1_count() + self.group2_count()
    }

    pub fn slot(&self, i: usize) -> (b: bool)
        requires
            i < 4,
        ensures
            b == self.spec_slot(i as int),
    {
        if i == 0 {
            self.p1a
        } else if i == 1 {
            self.p1b
        } else if i == 2 {
            self.p2a
        } else {
            self.p2b
        }
    }
}

/// The score bonus of one frame group when no point has been accepted yet.
pub const GROUP_BONUS: u32 = 1000;

impl ActivationPattern {
    /// How many of the two panel groups have at least one lit slot.
    pub open spec fn spec_lit_groups(self) -> int {
        (if self.spec_group1_count() >= 1 {
            1int
        } else {
            0int
        }) + (if self.spec_group2_count() >= 1 {
            1int
        } else {
            0int
        })
    }

    /// The dispersion score of the first frame, which no accepted point
    /// constrains: each panel group with a lit slot earns the flat bonus.
    pub fn unconstrained_bonus(&self) -> (b: u32)
        ensures
            b == GROUP_BONUS * self.spec_lit_groups(),
            self.is_nonempty() ==> 1000 <= b <= 2000,
    {
        let mut b: u32 = 0;
        if self.group1_count() >= 1 {
            b += GROUP_BONUS;
        }
        if self.group2_count() >= 1 {
            b += GROUP_BONUS;
        }
        b
    }
}

/// Decoding a code and re-encoding the pattern gives the code back.
pub proof fn lemma_code_of_pattern_of_code(c: int)
    requires
        0 <= c < 16,
    ensures
        pattern_of_code(c).spec_code() == c,
{
}

/// Encoding a pattern and decoding the code gives the pattern back, the code
/// lies in `[0, 16)`, and it is positive exactly for non-empty patterns.
pub proof fn lemma_pattern_of_code_of_pattern(p: ActivationPattern)
    ensures
        pattern_of_code(p.spec_code()) == p,
        0 <= p.spec_code() < 16,
        p.is_nonempty() <==> p.spec_code() >= 1,
{
}

/// Builds the pattern whose lit slots are the set bits of `c`.
pub fn pattern_from_code(c: usize) -> (p: ActivationPattern)
    requires
        c < 16,
    ensures
        p == pattern_of_code(c as int),
{
    ActivationPattern {
        p1a: c % 2 == 1,
        p1b: (c / 2) % 2 == 1,
        p2a: (c / 4) % 2 == 1,
        p2b: (c / 8) % 2 == 1,
    }
}

/// The table of all 15 non-empty activation patterns, in ascending bit-code
/// order: every non-empty pattern appears exactly once, and no empty one.
pub fn all_patterns() -> (v: Vec<ActivationPattern>)
    ensures
        v@.len() == 15,
        forall|i: int| 0 <= i < 15 ==> v@[i] == pattern_of_code(i + 1),
        forall|i: int| 0 <= i < 15 ==> (#[trigger] v@[i]).is_nonempty(),
        v@.no_duplicates(),
        forall|p: ActivationPattern| p.is_nonempty() ==> v@.contains(p),
{
    let mut v: Vec<ActivationPattern> = Vec::new();
    let mut c: usize = 1;
    while c < 16
        invariant
            1 <= c <= 16,
            v@.len() == c - 1,
            forall|i: int| 0 <= i < c - 1 ==> v@[i] == pattern_of_code(i + 1),
        decreases 16 - c,
    {
        v.push(pattern_from_code(c));
        c += 1;
    }
    proof {
        assert forall|i: int| 0 <= i < 15 implies (#[trigger] v@[i]).is_nonempty() by {
            lemma_code_of_pattern_of_code(i + 1);
        }
        assert forall|i: int, j: int|
            0 <= i < v@.len() && 0 <= j < v@.len() && i != j implies v@[i] != v@[j] by {
            lemma_code_of_pattern_of_code(i + 1);
            lemma_code_of_pattern_of_code(j + 1);
        }
        assert forall|p: ActivationPattern| p.is_nonempty() implies v@.contains(p) by {
            lemma_pattern_of_code_of_pattern(p);
            assert(v@[p.spec_code() - 1] == p);
        }
    }
    v
}

} // verus!
