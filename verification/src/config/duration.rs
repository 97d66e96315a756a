use vstd::prelude::*;

use crate::errors::GuardError;
use crate::text::{char_is_ascii_alpha, chars_eq, chars_of, is_ascii_alpha, lower, owned, append, string_of, string_of_range, trim, trim_str};

verus! {

/// A timeout, in milliseconds.
#[derive(Debug, Clone)]
pub struct Duration {
    pub millis: u64,
}

impl Default for Duration {
    fn default() -> (r: Self)
        ensures
            r.millis == 5000,
    {
        Duration { millis: 5000 }
    }
}

/// A duration's text split into its number and unit.
#[derive(Debug)]
pub struct DurationText {
    /// The whole text, trimmed and in ASCII lower case.
    pub normalized: String,
    /// The number before the unit, trimmed.
    pub number: String,
    /// Milliseconds per unit.
    pub multiplier_ms: u64,
}

/// Where the run of ASCII letters at the end of `t` begins.
pub open spec fn alpha_suffix_start(t: Seq<char>) -> int
    decreases t.len(),
{
    if t.len() > 0 && is_ascii_alpha(t.last()) {
        alpha_suffix_start(t.drop_last())
    } else {
        t.len() as int
    }
}

/// Milliseconds per unit, for the units `ms`, `s`, `m` and `h`.
pub open spec fn unit_multiplier(id: Seq<char>) -> Option<u64> {
    if id == "ms"@ {
        Some(1)
    } else if id == "s"@ {
        Some(1000)
    } else if id == "m"@ {
        Some(60_000)
    } else if id == "h"@ {
        Some(3_600_000)
    } else {
        None
    }
}

/// The unit of a normalized duration text: its trailing ASCII letters, `ms` when there
/// are none.
pub open spec fn duration_unit(t: Seq<char>) -> Seq<char> {
    let ident = t.skip(alpha_suffix_start(t));
    if ident.len() == 0 {
        "ms"@
    } else {
        ident
    }
}

/// How a duration text splits: the text trimmed and lower-cased, the trimmed number
/// before the unit, and the unit's multiplier; or the message for an unknown unit.
pub open spec fn duration_split(s: Seq<char>) -> Result<(Seq<char>, Seq<char>, u64), Seq<char>> {
    let t = lower(trim(s));
    let unit = duration_unit(t);
    match unit_multiplier(unit) {
        None => Err("invalid duration suffix: "@ + unit),
        Some(m) => Ok((t, trim(t.take(alpha_suffix_start(t))), m)),
    }
}

proof fn lemma_alpha_suffix_start(t: Seq<char>, k: int)
    requires
        0 <= k <= t.len(),
        forall|j: int| k <= j < t.len() ==> is_ascii_alpha(t[j]),
        k == 0 || !is_ascii_alpha(t[k - 1]),
    ensures
        alpha_suffix_start(t) == k,
    decreases t.len(),
{
    if t.len() > k {
        assert(t.drop_last().len() >= k);
        lemma_alpha_suffix_start(t.drop_last(), k);
    }
}

fn seq_is(v: &Vec<char>, lit: &str) -> (r: bool)
    ensures
        r == (v@ == lit@),
{
    let l = chars_of(lit);
    chars_eq(v, &l)
}

/// Splits a duration such as `"1.5h"`, `" 5s "` or `"5000"` into its number and unit.
/// The unit is the trailing run of ASCII letters (`ms` when there is none) and must be
/// one of `ms`, `s`, `m`, `h`.
pub fn split_duration(s: &str) -> (r: Result<DurationText, GuardError>)
    ensures
        match duration_split(s@) {
            Ok((t, n, m)) => r matches Ok(d) && d.normalized@ == t && d.number@ == n
                && d.multiplier_ms == m,
            Err(msg) => r matches Err(GuardError::Config(e)) && e@ == msg,
        },
{
    let trimmed = trim_str(s);
    let tv = chars_of(trimmed.as_str());
    let mut lowered: Vec<char> = Vec::new();
    let mut i: usize = 0;
    while i < tv.len()
        invariant
            i <= tv@.len(),
            lowered@ == lower(tv@).take(i as int),
        decreases tv.len() - i,
    {
        let c = tv[i];
        let u = c as u32;
        let lc = if 65 <= u && u <= 90 {
            ((u + 32) as u8) as char
        } else {
            c
        };
        lowered.push(lc);
        i = i + 1;
        assert(lowered@ =~= lower(tv@).take(i as int));
    }
    assert(lowered@ =~= lower(tv@));
    let ghost t = lowered@;
    let mut k = lowered.len();
    while k > 0 && char_is_ascii_alpha(lowered[k - 1])
        invariant
            k <= lowered@.len(),
            forall|j: int| k <= j < lowered@.len() ==> is_ascii_alpha(lowered@[j]),
        decreases k,
    {
        k = k - 1;
    }
    proof {
        lemma_alpha_suffix_start(t, k as int);
    }
    let ident = string_of_range(&lowered, k, lowered.len());
    let unit = if k == lowered.len() {
        owned("ms")
    } else {
        ident
    };
    assert(unit@ == duration_unit(t));
    let uv = chars_of(unit.as_str());
    let mult: u64 = if seq_is(&uv, "ms") {
        1
    } else if seq_is(&uv, "s") {
        1000
    } else if seq_is(&uv, "m") {
        60_000
    } else if seq_is(&uv, "h") {
        3_600_000
    } else {
        let mut msg = owned("invalid duration suffix: ");
        append(&mut msg, unit.as_str());
        return Err(GuardError::Config(msg));
    };
    let head = string_of_range(&lowered, 0, k);
    assert(head@ =~= t.take(k as int));
    let number = trim_str(head.as_str());
    Ok(DurationText { normalized: string_of(&lowered), number, multiplier_ms: mult })
}

} // verus!
