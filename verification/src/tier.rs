//! Storage tiers of an article.

use vstd::prelude::*;

use crate::error::TomeError;
use crate::text::{push_str_chars, str_eq, string_of};

verus! {

/// Where an article's content lives: Hot (plain, instant), Warm
/// (compressed), Cold (in the dump), or Evicted.
#[derive(Debug, Clone, Copy, PartialEq, Eq, Structural)]
pub enum Tier {
    Hot,
    Warm,
    Cold,
    Evicted,
}

/// The lower-case name of a tier, as stored in indexes and specs.
pub open spec fn tier_name(t: Tier) -> Seq<char> {
    match t {
        Tier::Hot => "hot"@,
        Tier::Warm => "warm"@,
        Tier::Cold => "cold"@,
        Tier::Evicted => "evicted"@,
    }
}

impl Tier {
    /// The lower-case name of this tier.
    pub fn as_str(&self) -> (r: &'static str)
        ensures
            r@ == tier_name(*self),
    {
        match self {
            Tier::Hot => "hot",
            Tier::Warm => "warm",
            Tier::Cold => "cold",
            Tier::Evicted => "evicted",
        }
    }
}

/// The tier named `s`, or the text of the error for an unknown name.
pub open spec fn parse_tier_spec(s: Seq<char>) -> Result<Tier, Seq<char>> {
    if s == "hot"@ {
        Ok(Tier::Hot)
    } else if s == "warm"@ {
        Ok(Tier::Warm)
    } else if s == "cold"@ {
        Ok(Tier::Cold)
    } else if s == "evicted"@ {
        Ok(Tier::Evicted)
    } else {
        Err("unknown tier in index: "@ + s)
    }
}

/// Reads a tier name.
pub fn parse_tier(s: &str) -> (r: Result<Tier, TomeError>)
    ensures
        match parse_tier_spec(s@) {
            Ok(t) => r == Ok::<Tier, TomeError>(t),
            Err(m) => r matches Err(TomeError::Other(x)) && x@ == m,
        },
{
    if str_eq(s, "hot") {
        Ok(Tier::Hot)
    } else if str_eq(s, "warm") {
        Ok(Tier::Warm)
    } else if str_eq(s, "cold") {
        Ok(Tier::Cold)
    } else if str_eq(s, "evicted") {
        Ok(Tier::Evicted)
    } else {
        let mut out: Vec<char> = Vec::new();
        push_str_chars(&mut out, "unknown tier in index: ");
        push_str_chars(&mut out, s);
        Err(TomeError::Other(string_of(out.as_slice())))
    }
}

/// Reading a tier's own name gives the tier back.
pub proof fn law_tier_name_round_trip(t: Tier)
    ensures
        parse_tier_spec(tier_name(t)) == Ok::<Tier, Seq<char>>(t),
{
    reveal_strlit("hot");
    reveal_strlit("warm");
    reveal_strlit("cold");
    reveal_strlit("evicted");
    assert("hot"@.len() == 3 && "warm"@.len() == 4 && "cold"@.len() == 4 && "evicted"@.len() == 7);
    assert("cold"@[0] != "warm"@[0]);
    assert("cold"@ != "warm"@);
    assert("hot"@ != "warm"@ && "hot"@ != "cold"@ && "hot"@ != "evicted"@);
    assert("warm"@ != "evicted"@ && "cold"@ != "evicted"@);
}

} // verus!
