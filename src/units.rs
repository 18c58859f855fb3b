//! Unit aliases and the reading of a quantity string such as `10 pounds of eggs`.
use vstd::prelude::*;
use crate::text::{contains, find, find_from_exec, sub_chars, trim, trim_chars};
use crate::numeral::{is_numeral, scale_numeral, scaled};

verus! {

/// Milligrams in an ounce.
pub const OUNCE_MG: u64 = 28_349;
/// Milligrams in a pound.
pub const POUND_MG: u64 = 453_592;
/// Micro-millilitres in a teaspoon.
pub const TSP: u64 = 4_928;
/// Micro-millilitres in a tablespoon.
pub const TBSP: u64 = 14_786;
/// Micro-millilitres in a fluid ounce.
pub const FLUID_OUNCE: u64 = 29_573;
/// Micro-millilitres in a rice cup.
pub const RICE: u64 = 180_000;
/// Micro-millilitres in a cup.
pub const CUP: u64 = 236_588;
/// Micro-millilitres in a quart.
pub const QUART: u64 = 946_353;

/// `c` is `a` or, for the lower-case ASCII letter `a`, its upper-case form
/// (the Kelvin sign lowers to `k`).
pub open spec fn folds_to(c: char, a: char) -> bool {
    c == a || ('a' <= a && a <= 'z' && c as u32 + 32 == a as u32) || (c == '\u{212a}' && a == 'k')
}

/// Length of the unit word once one trailing `s` is dropped.
pub open spec fn stem_len(u: Seq<char>) -> int {
    if u.len() > 0 && folds_to(u.last(), 's') {
        u.len() - 1
    } else {
        u.len() as int
    }
}

/// The unit word `u`, case aside and with one plural `s` dropped, is `alias`.
pub open spec fn unit_is(u: Seq<char>, alias: Seq<char>) -> bool {
    stem_len(u) == alias.len() && forall|i: int| 0 <= i < alias.len() ==> folds_to(#[trigger] u[i], alias[i])
}

/// Milligrams per unit of the weight unit word `u`.
pub open spec fn weight_factor(u: Seq<char>) -> Option<u64> {
    if unit_is(u, seq!['m', 'g']) {
        Some(1)
    } else if unit_is(u, seq!['m', 'i', 'l', 'l', 'i', 'g', 'r', 'a', 'm']) {
        Some(1)
    } else if unit_is(u, seq!['c', 'g']) {
        Some(10)
    } else if unit_is(u, seq!['c', 'e', 'n', 't', 'i', 'g', 'r', 'a', 'm']) {
        Some(10)
    } else if unit_is(u, seq!['d', 'g']) {
        Some(100)
    } else if unit_is(u, seq!['d', 'e', 'c', 'i', 'g', 'r', 'a', 'm']) {
        Some(100)
    } else if unit_is(u, seq!['g']) {
        Some(1000)
    } else if unit_is(u, seq!['g', 'r', 'a', 'm']) {
        Some(1000)
    } else if unit_is(u, seq!['k', 'g']) {
        Some(1000000)
    } else if unit_is(u, seq!['k', 'i', 'l', 'o', 'g', 'r', 'a', 'm']) {
        Some(1000000)
    } else if unit_is(u, seq!['o', 'z']) {
        Some(OUNCE_MG)
    } else if unit_is(u, seq!['o', 'u', 'n', 'c', 'e']) {
        Some(OUNCE_MG)
    } else if unit_is(u, seq!['l', 'b']) {
        Some(POUND_MG)
    } else if unit_is(u, seq!['p', 'o', 'u', 'n', 'd']) {
        Some(POUND_MG)
    } else {
        None
    }
}

/// Micro-millilitres per unit of the volume unit word `u`; `whole` is the
/// entire quantity string, which must name a cup for `rice`.
pub open spec fn volume_factor(u: Seq<char>, whole: Seq<char>) -> Option<u64> {
    if unit_is(u, seq!['m', 'l']) {
        Some(1000)
    } else if unit_is(u, seq!['m', 'i', 'l', 'l', 'i', 'l', 'i', 't', 'e', 'r']) {
        Some(1000)
    } else if unit_is(u, seq!['m', 'i', 'l', 'l', 'i', 'l', 'i', 't', 'r', 'e']) {
        Some(1000)
    } else if unit_is(u, seq!['c', 'l']) {
        Some(10000)
    } else if unit_is(u, seq!['c', 'e', 'n', 't', 'i', 'l', 'i', 't', 'e', 'r']) {
        Some(10000)
    } else if unit_is(u, seq!['c', 'e', 'n', 't', 'i', 'l', 'i', 't', 'r', 'e']) {
        Some(10000)
    } else if unit_is(u, seq!['d', 'l']) {
        Some(100000)
    } else if unit_is(u, seq!['d', 'e', 'c', 'i', 'l', 'i', 't', 'e', 'r']) {
        Some(100000)
    } else if unit_is(u, seq!['d', 'e', 'c', 'i', 'l', 'i', 't', 'r', 'e']) {
        Some(100000)
    } else if unit_is(u, seq!['l']) {
        Some(1000000)
    } else if unit_is(u, seq!['l', 'i', 't', 'e', 'r']) {
        Some(1000000)
    } else if unit_is(u, seq!['l', 'i', 't', 'r', 'e']) {
        Some(1000000)
    } else if unit_is(u, seq!['t', 's', 'p']) {
        Some(TSP)
    } else if unit_is(u, seq!['t', 'b', 's', 'p']) {
        Some(TBSP)
    } else if unit_is(u, seq!['f', 'l', 'o', 'z']) {
        Some(FLUID_OUNCE)
    } else if unit_is(u, seq!['r', 'i', 'c', 'e']) && contains(whole, seq!['c', 'u', 'p']) {
        Some(RICE)
    } else if unit_is(u, seq!['c', 'u', 'p']) {
        Some(CUP)
    } else if unit_is(u, seq!['q', 'u', 'a', 'r', 't']) {
        Some(QUART)
    } else {
        None
    }
}

/// Position of the first space in `s`, or -1.
pub open spec fn first_space(s: Seq<char>) -> int {
    find(s, seq![' '])
}

/// The amount: what precedes the first space, trimmed.
pub open spec fn amount_of(s: Seq<char>) -> Seq<char> {
    trim(s.subrange(0, first_space(s)))
}

/// The unit word: what follows the first space up to the next one, trimmed.
pub open spec fn unit_word_of(s: Seq<char>) -> Seq<char> {
    let last = s.subrange(first_space(s) + 1, s.len() as int);
    let q = find(last, seq![' ']);
    if q < 0 {
        trim(last)
    } else {
        trim(last.subrange(0, q))
    }
}

/// What can go wrong when a quantity string is read.
#[derive(Clone, Copy, Debug, PartialEq, Eq)]
pub enum QuantityFault {
    EmptyString,
    InvalidFormat,
    EmptyAmount,
    MalformedAmount,
    UnknownUnit,
}

/// The factor of the unit of `s`, for a volume or for a weight.
pub open spec fn factor_of(s: Seq<char>, volume: bool) -> Option<u64> {
    if volume {
        volume_factor(unit_word_of(s), s)
    } else {
        weight_factor(unit_word_of(s))
    }
}

/// The canonical amount that the quantity string `s` denotes, or why it denotes none.
pub open spec fn quantity_outcome(s: Seq<char>, volume: bool) -> Result<u64, QuantityFault> {
    if s.len() == 0 {
        Err(QuantityFault::EmptyString)
    } else if first_space(s) < 0 {
        Err(QuantityFault::InvalidFormat)
    } else if !is_numeral(amount_of(s)) {
        if amount_of(s).len() == 0 {
            Err(QuantityFault::EmptyAmount)
        } else {
            Err(QuantityFault::MalformedAmount)
        }
    } else {
        match factor_of(s, volume) {
            Some(f) => Ok(scaled(amount_of(s), f as nat)),
            None => Err(QuantityFault::UnknownUnit),
        }
    }
}

fn folds_to_exec(c: char, a: char) -> (r: bool)
    ensures
        r == folds_to(c, a),
{
    c == a || ('a' <= a && a <= 'z' && c as u32 + 32 == a as u32) || (c == '\u{212a}' && a == 'k')
}

fn unit_is_exec(u: &Vec<char>, alias: &[char]) -> (r: bool)
    ensures
        r == unit_is(u@, alias@),
{
    let n: usize = if u.len() > 0 && folds_to_exec(u[u.len() - 1], 's') {
        u.len() - 1
    } else {
        u.len()
    };
    if n != alias.len() {
        return false;
    }
    let mut i: usize = 0;
    while i < n
        invariant
            n == alias@.len(),
            n <= u@.len(),
            i <= n,
            forall|k: int| 0 <= k < i ==> folds_to(#[trigger] u@[k], alias@[k]),
        decreases n - i,
    {
        if !folds_to_exec(u[i], alias[i]) {
            return false;
        }
        i = i + 1;
    }
    true
}

fn weight_factor_exec(u: &Vec<char>) -> (r: Option<u64>)
    ensures
        r == weight_factor(u@),
{
    if unit_is_exec(u, &['m', 'g']) {
        Some(1)
    } else if unit_is_exec(u, &['m', 'i', 'l', 'l', 'i', 'g', 'r', 'a', 'm']) {
        Some(1)
    } else if unit_is_exec(u, &['c', 'g']) {
        Some(10)
    } else if unit_is_exec(u, &['c', 'e', 'n', 't', 'i', 'g', 'r', 'a', 'm']) {
        Some(10)
    } else if unit_is_exec(u, &['d', 'g']) {
        Some(100)
    } else if unit_is_exec(u, &['d', 'e', 'c', 'i', 'g', 'r', 'a', 'm']) {
        Some(100)
    } else if unit_is_exec(u, &['g']) {
        Some(1000)
    } else if unit_is_exec(u, &['g', 'r', 'a', 'm']) {
        Some(1000)
    } else if unit_is_exec(u, &['k', 'g']) {
        Some(1000000)
    } else if unit_is_exec(u, &['k', 'i', 'l', 'o', 'g', 'r', 'a', 'm']) {
        Some(1000000)
    } else if unit_is_exec(u, &['o', 'z']) {
        Some(OUNCE_MG)
    } else if unit_is_exec(u, &['o', 'u', 'n', 'c', 'e']) {
        Some(OUNCE_MG)
    } else if unit_is_exec(u, &['l', 'b']) {
        Some(POUND_MG)
    } else if unit_is_exec(u, &['p', 'o', 'u', 'n', 'd']) {
        Some(POUND_MG)
    } else {
        None
    }
}

fn volume_factor_exec(u: &Vec<char>, has_cup: bool, whole: Ghost<Seq<char>>) -> (r: Option<u64>)
    requires
        has_cup == contains(whole@, seq!['c', 'u', 'p']),
    ensures
        r == volume_factor(u@, whole@),
{
    if unit_is_exec(u, &['m', 'l']) {
        Some(1000)
    } else if unit_is_exec(u, &['m', 'i', 'l', 'l', 'i', 'l', 'i', 't', 'e', 'r']) {
        Some(1000)
    } else if unit_is_exec(u, &['m', 'i', 'l', 'l', 'i', 'l', 'i', 't', 'r', 'e']) {
        Some(1000)
    } else if unit_is_exec(u, &['c', 'l']) {
        Some(10000)
    } else if unit_is_exec(u, &['c', 'e', 'n', 't', 'i', 'l', 'i', 't', 'e', 'r']) {
        Some(10000)
    } else if unit_is_exec(u, &['c', 'e', 'n', 't', 'i', 'l', 'i', 't', 'r', 'e']) {
        Some(10000)
    } else if unit_is_exec(u, &['d', 'l']) {
        Some(100000)
    } else if unit_is_exec(u, &['d', 'e', 'c', 'i', 'l', 'i', 't', 'e', 'r']) {
        Some(100000)
    } else if unit_is_exec(u, &['d', 'e', 'c', 'i', 'l', 'i', 't', 'r', 'e']) {
        Some(100000)
    } else if unit_is_exec(u, &['l']) {
        Some(1000000)
    } else if unit_is_exec(u, &['l', 'i', 't', 'e', 'r']) {
        Some(1000000)
    } else if unit_is_exec(u, &['l', 'i', 't', 'r', 'e']) {
        Some(1000000)
    } else if unit_is_exec(u, &['t', 's', 'p']) {
        Some(TSP)
    } else if unit_is_exec(u, &['t', 'b', 's', 'p']) {
        Some(TBSP)
    } else if unit_is_exec(u, &['f', 'l', 'o', 'z']) {
        Some(FLUID_OUNCE)
    } else if unit_is_exec(u, &['r', 'i', 'c', 'e']) && has_cup {
        Some(RICE)
    } else if unit_is_exec(u, &['c', 'u', 'p']) {
        Some(CUP)
    } else if unit_is_exec(u, &['q', 'u', 'a', 'r', 't']) {
        Some(QUART)
    } else {
        None
    }
}

/// Reads the quantity string `s` as a weight (in milligrams) or a volume (in micro-millilitres).
pub fn read_quantity(s: &str, volume: bool) -> (r: Result<u64, QuantityFault>)
    ensures
        r == quantity_outcome(s@, volume),
{
    let v = crate::text::chars_of(s);
    if v.len() == 0 {
        return Err(QuantityFault::EmptyString);
    }
    let space = vec![' '];
    assert(space@ =~= seq![' ']);
    let sp = match find_from_exec(&v, &space, 0) {
        Some(p) => p,
        None => {
            return Err(QuantityFault::InvalidFormat);
        },
    };
    proof {
        assert(space@ =~= seq![' ']);
        crate::text::lemma_find_from_bounds(v@, seq![' '], 0);
    }
    let amount = trim_chars(&sub_chars(&v, 0, sp));
    let last = sub_chars(&v, sp + 1, v.len());
    let unit_end = match find_from_exec(&last, &space, 0) {
        Some(q) => q,
        None => last.len(),
    };
    proof {
        crate::text::lemma_find_from_bounds(last@, seq![' '], 0);
    }
    let unit = trim_chars(&sub_chars(&last, 0, unit_end));
    assert(last@.subrange(0, last@.len() as int) =~= last@);
    let factor = if volume {
        let cup = vec!['c', 'u', 'p'];
        let has_cup = find_from_exec(&v, &cup, 0).is_some();
        assert(cup@ =~= seq!['c', 'u', 'p']);
        volume_factor_exec(&unit, has_cup, Ghost(v@))
    } else {
        weight_factor_exec(&unit)
    };
    match scale_numeral(&amount, 1) {
        None => {
            if amount.len() == 0 {
                return Err(QuantityFault::EmptyAmount);
            } else {
                return Err(QuantityFault::MalformedAmount);
            }
        },
        Some(_) => {},
    }
    match factor {
        None => Err(QuantityFault::UnknownUnit),
        Some(f) => {
            match scale_numeral(&amount, f) {
                Some(x) => Ok(x),
                None => Err(QuantityFault::MalformedAmount),
            }
        },
    }
}

} // verus!
