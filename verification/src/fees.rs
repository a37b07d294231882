//! Priority tiers and the fixed fee-bid table.

use vstd::prelude::*;

verus! {

/// Coarse urgency tier for a transaction's fee bid. Callers choose a tier
/// rather than a raw price so that over- and underpricing mistakes from raw
/// units are harder to make.
#[derive(Debug, Clone, PartialEq, Eq, Structural)]
pub enum Priority {
    NoPriority,
    Low,
    Medium,
    High,
    Max,
}

impl Default for Priority {
    fn default() -> (r: Self)
        ensures
            r == Priority::Low,
    {
        Priority::Low
    }
}

/// The fixed table from tier to price per compute unit, in micro-fee-units.
pub open spec fn spec_priority_fee(priority: Priority) -> u64 {
    match priority {
        Priority::NoPriority => 1_000,
        Priority::Low => 50_000,
        Priority::Medium => 200_000,
        Priority::High => 1_000_000,
        Priority::Max => 2_000_000,
    }
}

/// Price per compute unit bid for the given tier, straight from the fixed table.
pub fn get_priority_fee(priority: &Priority) -> (fee: u64)
    ensures
        fee == spec_priority_fee(*priority),
{
    match priority {
        Priority::NoPriority => 1_000,
        Priority::Low => 50_000,
        Priority::Medium => 200_000,
        Priority::High => 1_000_000,
        Priority::Max => 2_000_000,
    }
}

/// Rejection of a priority name that matches no tier.
#[derive(Debug, Clone, Copy, PartialEq, Eq, Structural)]
pub struct InvalidPriority;

/// `c` reads as the keyword character `k` when it is `k` itself or its
/// ASCII upper-case form.
pub open spec fn ascii_eq_ignore_case(c: char, k: char) -> bool {
    c == k || (('A' as u32) <= (c as u32) && (c as u32) <= ('Z' as u32) && (c as u32) + 32 == (
    k as u32))
}

/// `s` spells the lower-case ASCII keyword `kw`, ignoring ASCII case.
pub open spec fn name_matches(s: Seq<char>, kw: Seq<char>) -> bool {
    s.len() == kw.len() && forall|i: int|
        0 <= i < s.len() ==> ascii_eq_ignore_case(s[i], #[trigger] kw[i])
}

fn matches_name(s: &str, kw: &str) -> (r: bool)
    ensures
        r == name_matches(s@, kw@),
{
    let n = s.unicode_len();
    if n != kw.unicode_len() {
        return false;
    }
    let mut i: usize = 0;
    while i < n
        invariant
            i <= n,
            n == s@.len(),
            n == kw@.len(),
            forall|t: int| 0 <= t < i ==> ascii_eq_ignore_case(s@[t], #[trigger] kw@[t]),
        decreases n - i,
    {
        let c = s.get_char(i);
        let k = kw.get_char(i);
        let ok = c == k || (('A' as u32) <= (c as u32) && (c as u32) <= ('Z' as u32) && (c as u32)
            + 32 == (k as u32));
        if !ok {
            proof {
                assert(!ascii_eq_ignore_case(s@[i as int], kw@[i as int]));
            }
            return false;
        }
        i += 1;
    }
    true
}

/// The tier a name denotes, ignoring ASCII case; any other name is rejected.
pub open spec fn spec_parse_priority(s: Seq<char>) -> Result<Priority, InvalidPriority> {
    if name_matches(s, "none"@) {
        Ok(Priority::NoPriority)
    } else if name_matches(s, "low"@) {
        Ok(Priority::Low)
    } else if name_matches(s, "medium"@) {
        Ok(Priority::Medium)
    } else if name_matches(s, "high"@) {
        Ok(Priority::High)
    } else if name_matches(s, "max"@) {
        Ok(Priority::Max)
    } else {
        Err(InvalidPriority)
    }
}

/// The tier's display name.
pub open spec fn spec_priority_label(p: Priority) -> Seq<char> {
    match p {
        Priority::NoPriority => "None"@,
        Priority::Low => "Low"@,
        Priority::Medium => "Medium"@,
        Priority::High => "High"@,
        Priority::Max => "Max"@,
    }
}

impl Priority {
    /// Reads a tier name, ignoring ASCII case; an unknown name is a typed
    /// rejection rather than an abort.
    pub fn parse(s: &str) -> (r: Result<Priority, InvalidPriority>)
        ensures
            r == spec_parse_priority(s@),
    {
        if matches_name(s, "none") {
            Ok(Priority::NoPriority)
        } else if matches_name(s, "low") {
            Ok(Priority::Low)
        } else if matches_name(s, "medium") {
            Ok(Priority::Medium)
        } else if matches_name(s, "high") {
            Ok(Priority::High)
        } else if matches_name(s, "max") {
            Ok(Priority::Max)
        } else {
            Err(InvalidPriority)
        }
    }

    /// The tier's display name.
    pub fn label(&self) -> (r: String)
        ensures
            r@ == spec_priority_label(*self),
    {
        match self {
            Priority::NoPriority => "None".to_owned(),
            Priority::Low => "Low".to_owned(),
            Priority::Medium => "Medium".to_owned(),
            Priority::High => "High".to_owned(),
            Priority::Max => "Max".to_owned(),
        }
    }
}

} // verus!
