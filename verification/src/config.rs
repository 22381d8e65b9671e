//! Configuration data and defaults.
//!
//! The unverified shell reads the configuration file and watches it for
//! changes; these are the plain values it hands in, with their documented
//! defaults, and the key-chord comparison the trigger handling uses.

use vstd::prelude::*;
use vstd::std_specs::cmp::PartialEqSpec;

verus! {

/// The overlay font request: family and style, both optional.
pub struct Font {
    pub family: Option<String>,
    pub style: Option<String>,
}

pub fn default_family() -> (r: Option<String>)
    ensures
        r is None,
{
    None
}

pub fn default_style() -> (r: Option<String>)
    ensures
        r is None,
{
    None
}

impl Default for Font {
    fn default() -> (r: Font)
        ensures
            r.family is None,
            r.style is None,
    {
        Font { family: default_family(), style: default_style() }
    }
}

/// Overlay colors, each a packed ARGB word.
pub struct Colors {
    pub capture: u32,
    pub highlight: u32,
    pub hint: u32,
    pub hint_bg: u32,
}

pub fn default_capture() -> (r: u32)
    ensures
        r == 0x20002000u32,
{
    0x20002000
}

pub fn default_highlight() -> (r: u32)
    ensures
        r == 0x20200000u32,
{
    0x20200000
}

pub fn default_hint() -> (r: u32)
    ensures
        r == 0xFF32FF00u32,
{
    0xFF32FF00
}

pub fn default_hint_bg() -> (r: u32)
    ensures
        r == 0xC0000024u32,
{
    0xC0000024
}

impl Default for Colors {
    fn default() -> (r: Colors)
        ensures
            r.capture == 0x20002000u32,
            r.highlight == 0x20200000u32,
            r.hint == 0xFF32FF00u32,
            r.hint_bg == 0xC0000024u32,
    {
        Colors {
            capture: default_capture(),
            highlight: default_highlight(),
            hint: default_hint(),
            hint_bg: default_hint_bg(),
        }
    }
}

/// Where the morphological analyzer listens.
pub struct LinderaConfig {
    pub server_address: String,
}

pub fn default_lindera_address() -> (r: String)
    ensures
        r@ == "0.0.0.0:3333"@,
{
    "0.0.0.0:3333".to_owned()
}

impl Default for LinderaConfig {
    fn default() -> (r: LinderaConfig)
        ensures
            r.server_address@ == "0.0.0.0:3333"@,
    {
        LinderaConfig { server_address: default_lindera_address() }
    }
}

/// `x` equals (under `eq_spec`) some member of `s`.
pub open spec fn spec_has_match<T: PartialEq>(x: T, s: Seq<T>) -> bool {
    exists|j: int| 0 <= j < s.len() && x.eq_spec(#[trigger] &s[j])
}

/// Two key chords hold the same keys regardless of order (the callers
/// compare duplicate-free chords): equal length, and every key of the
/// first present in the second.
pub open spec fn spec_same_content<T: PartialEq>(s0: Seq<T>, s1: Seq<T>) -> bool {
    s0.len() == s1.len() && forall|i: int|
        0 <= i < s0.len() ==> spec_has_match(#[trigger] s0[i], s1)
}

/// Whether two key chords hold the same keys, in any order.
pub fn same_content<T: PartialEq>(ts0: &[T], ts1: &[T]) -> (b: bool)
    ensures
        T::obeys_eq_spec() ==> b == spec_same_content(ts0@, ts1@),
{
    if ts0.len() != ts1.len() {
        return false;
    }
    let mut i: usize = 0;
    while i < ts0.len()
        invariant
            0 <= i <= ts0@.len(),
            T::obeys_eq_spec() ==> forall|k: int|
                0 <= k < i ==> spec_has_match(#[trigger] ts0@[k], ts1@),
        decreases ts0@.len() - i,
    {
        let mut found = false;
        let mut j: usize = 0;
        while j < ts1.len()
            invariant
                0 <= i < ts0@.len(),
                0 <= j <= ts1@.len(),
                T::obeys_eq_spec() ==> found == exists|k: int|
                    0 <= k < j && ts0@[i as int].eq_spec(#[trigger] &ts1@[k]),
            decreases ts1@.len() - j,
        {
            if ts0[i] == ts1[j] {
                found = true;
            }
            j += 1;
        }
        if !found {
            proof {
                if T::obeys_eq_spec() {
                    assert(!spec_has_match(ts0@[i as int], ts1@));
                }
            }
            return false;
        }
        proof {
            if T::obeys_eq_spec() {
                assert(spec_has_match(ts0@[i as int], ts1@));
            }
        }
        i += 1;
    }
    true
}

} // verus!
