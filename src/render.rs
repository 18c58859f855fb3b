//! Display of quantities through breakpoint tables: sorted lower bounds over
//! the canonical value, each opening a tier with its own wording.
use vstd::prelude::*;
use crate::measurements::{Imperial, Metric, Volume, Weight};
use crate::units::{CUP, FLUID_OUNCE, OUNCE_MG, POUND_MG, QUART, TBSP, TSP};

verus! {

pub const W_OUNCE_LIMIT: u64 = OUNCE_MG * 8;
pub const W_POUND_LIMIT: u64 = POUND_MG * 4;
pub const LOWEST_LIMIT: u64 = TSP / 15;
pub const E_TSP_LIMIT: u64 = TSP * 12 / 80;
pub const Q_TSP_LIMIT: u64 = TSP * 12 / 40;
pub const H_TSP_LIMIT: u64 = TSP * 12 / 20;
pub const TQ_TSP_LIMIT: u64 = TSP * 120000 / 133333;
pub const TSP_LIMIT: u64 = TSP * 12 / 10;
pub const H_TBSP_LIMIT: u64 = TBSP * 12 / 20;
pub const TBSP_LIMIT: u64 = TBSP * 12 / 10;
pub const V_OUNCE_LIMIT: u64 = FLUID_OUNCE * 8;
pub const CUP_LIMIT: u64 = QUART * 190 / 200;
pub const QUART_LIMIT: u64 = QUART * 5;

/// Bounds that rise strictly from 0.
pub open spec fn is_table(b: Seq<u64>) -> bool {
    b.len() > 0 && b[0] == 0 && forall|i: int, j: int| 0 <= i < j < b.len() ==> b[i] < b[j]
}

/// `n` falls in tier `i` of `b`: from `b[i]` up to, not including, the next bound.
pub open spec fn in_tier(b: Seq<u64>, i: int, n: u64) -> bool {
    0 <= i < b.len() && b[i] <= n && (i + 1 == b.len() || n < b[i + 1])
}

/// The tier of `n`, searched upward from tier `i`.
pub open spec fn tier_from(b: Seq<u64>, n: u64, i: int) -> int
    decreases b.len() - i,
{
    if i < 0 || i + 1 >= b.len() || n < b[i + 1] {
        i
    } else {
        tier_from(b, n, i + 1)
    }
}

/// The tier of `n` in the table `b`.
pub open spec fn tier_of(b: Seq<u64>, n: u64) -> int {
    tier_from(b, n, 0)
}

proof fn lemma_tier_from(b: Seq<u64>, n: u64, i: int)
    requires
        is_table(b),
        0 <= i < b.len(),
        b[i] <= n,
    ensures
        in_tier(b, tier_from(b, n, i), n),
    decreases b.len() - i,
{
    if i + 1 < b.len() && n >= b[i + 1] {
        lemma_tier_from(b, n, i + 1);
    }
}

/// Each value falls in exactly one tier of a table, and the search finds it.
pub proof fn lemma_tiers_partition(b: Seq<u64>, n: u64)
    requires
        is_table(b),
    ensures
        in_tier(b, tier_of(b, n), n),
        forall|j: int| #[trigger] in_tier(b, j, n) ==> j == tier_of(b, n),
{
    lemma_tier_from(b, n, 0);
    let t = tier_of(b, n);
    assert forall|j: int| #[trigger] in_tier(b, j, n) implies j == t by {
        if j < t {
            assert(b[j + 1] <= b[t]);
        } else if t < j {
            assert(b[t + 1] <= b[j]);
        }
    }
}

/// Lower bounds of the tiers of a weight in metric units.
pub open spec fn weight_metric_bounds() -> Seq<u64> {
    seq![0, 1000, 1_000_000, 10_000_000]
}

fn weight_metric_bounds_exec() -> (r: Vec<u64>)
    ensures
        r@ == weight_metric_bounds(),
{
    let r: Vec<u64> = vec![0, 1000, 1_000_000, 10_000_000];
    assert(r@ =~= weight_metric_bounds());
    r
}

/// The wording of tier `i` for the value `n`.
pub open spec fn weight_metric_tier_text(i: int, n: nat) -> Seq<char> {
    if i == 0 {
        dec(n) + " mg"@
    } else if i == 1 {
        dec(n / 1000) + " g"@
    } else if i == 2 {
        one_decimal(tenths(n, 1_000_000)) + " kg"@
    } else {
        dec(n / 1_000_000) + " kg"@
    }
}

/// How a weight in metric units is shown.
pub open spec fn weight_metric_text(n: u64) -> Seq<char> {
    weight_metric_tier_text(tier_of(weight_metric_bounds(), n), n as nat)
}

/// Lower bounds of the tiers of a weight in imperial units.
pub open spec fn weight_imperial_bounds() -> Seq<u64> {
    seq![0, 250, 500, 1000, 2000, 4000, 8000, 12000, OUNCE_MG, W_OUNCE_LIMIT, W_POUND_LIMIT]
}

fn weight_imperial_bounds_exec() -> (r: Vec<u64>)
    ensures
        r@ == weight_imperial_bounds(),
{
    let r: Vec<u64> = vec![0, 250, 500, 1000, 2000, 4000, 8000, 12000, OUNCE_MG, W_OUNCE_LIMIT, W_POUND_LIMIT];
    assert(r@ =~= weight_imperial_bounds());
    r
}

/// The wording of tier `i` for the value `n`.
pub open spec fn weight_imperial_tier_text(i: int, n: nat) -> Seq<char> {
    if i == 0 {
        "0 oz"@
    } else if i == 1 {
        "1/8 tsp"@
    } else if i == 2 {
        "1/4 tsp"@
    } else if i == 3 {
        "1/2 tsp"@
    } else if i == 4 {
        "1 tsp"@
    } else if i == 5 {
        "1/2 tbsp"@
    } else if i == 6 {
        "1 tbsp"@
    } else if i == 7 {
        one_decimal(tenths(n, OUNCE_MG as nat)) + " oz"@
    } else if i == 8 {
        one_decimal(tenths(n, OUNCE_MG as nat)) + " oz"@
    } else if i == 9 {
        one_decimal(tenths(n, POUND_MG as nat)) + " g"@
    } else {
        dec(n / POUND_MG as nat) + " g"@
    }
}

/// How a weight in imperial units is shown.
pub open spec fn weight_imperial_text(n: u64) -> Seq<char> {
    weight_imperial_tier_text(tier_of(weight_imperial_bounds(), n), n as nat)
}

/// Lower bounds of the tiers of a volume in metric units.
pub open spec fn volume_metric_bounds() -> Seq<u64> {
    seq![0, 500, 500_000, 5_000_000]
}

fn volume_metric_bounds_exec() -> (r: Vec<u64>)
    ensures
        r@ == volume_metric_bounds(),
{
    let r: Vec<u64> = vec![0, 500, 500_000, 5_000_000];
    assert(r@ =~= volume_metric_bounds());
    r
}

/// The wording of tier `i` for the value `n`.
pub open spec fn volume_metric_tier_text(i: int, n: nat) -> Seq<char> {
    if i == 0 {
        "0 ml"@
    } else if i == 1 {
        dec(n / 1000) + " ml"@
    } else if i == 2 {
        one_decimal(tenths(n, 1_000_000)) + " l"@
    } else {
        dec(n / 1_000_000) + " l"@
    }
}

/// How a volume in metric units is shown.
pub open spec fn volume_metric_text(n: u64) -> Seq<char> {
    volume_metric_tier_text(tier_of(volume_metric_bounds(), n), n as nat)
}

/// Lower bounds of the tiers of a volume in imperial units.
pub open spec fn volume_imperial_bounds() -> Seq<u64> {
    seq![0, LOWEST_LIMIT, E_TSP_LIMIT, Q_TSP_LIMIT, H_TSP_LIMIT, TQ_TSP_LIMIT, TSP_LIMIT, H_TBSP_LIMIT, TBSP_LIMIT, V_OUNCE_LIMIT, CUP_LIMIT, QUART_LIMIT]
}

fn volume_imperial_bounds_exec() -> (r: Vec<u64>)
    ensures
        r@ == volume_imperial_bounds(),
{
    let r: Vec<u64> = vec![0, LOWEST_LIMIT, E_TSP_LIMIT, Q_TSP_LIMIT, H_TSP_LIMIT, TQ_TSP_LIMIT, TSP_LIMIT, H_TBSP_LIMIT, TBSP_LIMIT, V_OUNCE_LIMIT, CUP_LIMIT, QUART_LIMIT];
    assert(r@ =~= volume_imperial_bounds());
    r
}

/// The wording of tier `i` for the value `n`.
pub open spec fn volume_imperial_tier_text(i: int, n: nat) -> Seq<char> {
    if i == 0 {
        "0 tsp"@
    } else if i == 1 {
        "1/8 tsp"@
    } else if i == 2 {
        "1/4 tsp"@
    } else if i == 3 {
        "1/2 tsp"@
    } else if i == 4 {
        "3/4 tsp"@
    } else if i == 5 {
        "1 tsp"@
    } else if i == 6 {
        "1/2 tbsp"@
    } else if i == 7 {
        "1 tbsp"@
    } else if i == 8 {
        one_decimal(tenths(n, FLUID_OUNCE as nat)) + " floz"@
    } else if i == 9 {
        one_decimal(tenths(n, CUP as nat)) + " cups"@
    } else if i == 10 {
        one_decimal(tenths(n, QUART as nat)) + " quarts"@
    } else {
        dec(n / QUART as nat) + " quarts"@
    }
}

/// How a volume in imperial units is shown.
pub open spec fn volume_imperial_text(n: u64) -> Seq<char> {
    volume_imperial_tier_text(tier_of(volume_imperial_bounds(), n), n as nat)
}


/// Every value has one tier in each of the four display tables, so display
/// never lacks a wording and never has two.
pub proof fn lemma_display_tables_exhaustive(n: u64)
    ensures
        exactly_one_tier(weight_metric_bounds(), n),
        exactly_one_tier(weight_imperial_bounds(), n),
        exactly_one_tier(volume_metric_bounds(), n),
        exactly_one_tier(volume_imperial_bounds(), n),
{
    lemma_tables_sorted();
    lemma_tiers_partition(weight_metric_bounds(), n);
    lemma_tiers_partition(weight_imperial_bounds(), n);
    lemma_tiers_partition(volume_metric_bounds(), n);
    lemma_tiers_partition(volume_imperial_bounds(), n);
}

/// `n` lies in one tier of `b` and in no other.
pub open spec fn exactly_one_tier(b: Seq<u64>, n: u64) -> bool {
    exists|i: int| #[trigger] in_tier(b, i, n) && forall|j: int| #[trigger] in_tier(b, j, n) ==> j == i
}

proof fn lemma_tables_sorted()
    ensures
        is_table(weight_metric_bounds()),
        is_table(weight_imperial_bounds()),
        is_table(volume_metric_bounds()),
        is_table(volume_imperial_bounds()),
{
    assert(is_table(weight_metric_bounds()));
    assert(is_table(weight_imperial_bounds()));
    assert(is_table(volume_metric_bounds()));
    assert(is_table(volume_imperial_bounds()));
}

/// Finds the tier of `n` in `b`.
fn tier_index(b: &Vec<u64>, n: u64) -> (r: usize)
    requires
        is_table(b@),
    ensures
        r as int == tier_of(b@, n),
        in_tier(b@, r as int, n),
{
    proof {
        lemma_tiers_partition(b@, n);
    }
    let mut i: usize = 0;
    while i < b.len() - 1 && n >= b[i + 1]
        invariant
            is_table(b@),
            i < b@.len(),
            tier_from(b@, n, i as int) == tier_of(b@, n),
        decreases b@.len() - i,
    {
        i = i + 1;
    }
    i
}

pub open spec fn digit_char(d: nat) -> char {
    if d == 0 { '0' } else if d == 1 { '1' } else if d == 2 { '2' } else if d == 3 { '3' }
    else if d == 4 { '4' } else if d == 5 { '5' } else if d == 6 { '6' } else if d == 7 { '7' }
    else if d == 8 { '8' } else { '9' }
}

/// The decimal digits of `n`.
pub open spec fn dec(n: nat) -> Seq<char>
    decreases n,
{
    if n < 10 {
        seq![digit_char(n)]
    } else {
        dec(n / 10) + seq![digit_char(n % 10)]
    }
}

/// `10 * n / d` rounded to the nearest integer, ties to even.
pub open spec fn tenths(n: nat, d: nat) -> nat {
    let q = (10 * n) / d;
    let r = (10 * n) % d;
    if 2 * r > d || (2 * r == d && q % 2 == 1) {
        q + 1
    } else {
        q
    }
}

/// A count of tenths written with one decimal: `17` as `1.7`.
pub open spec fn one_decimal(t: nat) -> Seq<char> {
    dec(t / 10) + seq!['.'] + dec(t % 10)
}

fn digit_str(d: u64) -> (r: &'static str)
    requires
        d < 10,
    ensures
        r@ == seq![digit_char(d as nat)],
{
    proof {
        reveal_strlit("0");
        reveal_strlit("1");
        reveal_strlit("2");
        reveal_strlit("3");
        reveal_strlit("4");
        reveal_strlit("5");
        reveal_strlit("6");
        reveal_strlit("7");
        reveal_strlit("8");
        reveal_strlit("9");
    }
    let r = if d == 0 { "0" } else if d == 1 { "1" } else if d == 2 { "2" } else if d == 3 { "3" }
    else if d == 4 { "4" } else if d == 5 { "5" } else if d == 6 { "6" } else if d == 7 { "7" }
    else if d == 8 { "8" } else { "9" };
    assert(r@ =~= seq![digit_char(d as nat)]);
    r
}

fn push_dec(out: &mut String, n: u64)
    ensures
        final(out)@ == old(out)@ + dec(n as nat),
    decreases n,
{
    if n >= 10 {
        push_dec(out, n / 10);
    }
    out.append(digit_str(n % 10));
    assert(final(out)@ =~= old(out)@ + dec(n as nat));
}

fn push_one_decimal(out: &mut String, t: u64)
    ensures
        final(out)@ == old(out)@ + one_decimal(t as nat),
{
    push_dec(out, t / 10);
    proof {
        reveal_strlit(".");
    }
    out.append(".");
    push_dec(out, t % 10);
    assert(final(out)@ =~= old(out)@ + one_decimal(t as nat));
}

fn tenths_exec(n: u64, d: u64) -> (r: u64)
    requires
        0 < d <= 1_000_000,
        n < 100 * d,
    ensures
        r == tenths(n as nat, d as nat),
{
    let m = 10 * (n as u128);
    let q = m / (d as u128);
    let rem = m % (d as u128);
    let t = if 2 * rem > d as u128 || (2 * rem == d as u128 && q % 2 == 1) {
        q + 1
    } else {
        q
    };
    assert(q <= 1000) by (nonlinear_arith)
        requires q == m / (d as u128), m == 10 * (n as u128), n < 100 * d, d > 0;
    (t as u64)
}

impl Weight<Metric> {
    /// The display text of this weight.
    pub fn render(&self) -> (r: String)
        ensures
            r@ == weight_metric_text(self@),
    {
        let n = self.get();
        let b = weight_metric_bounds_exec();
        proof {
            lemma_tables_sorted();
        }
        let i = tier_index(&b, n);
        let mut out = String::new();
        match i {
        0 => {
            push_dec(&mut out, n);
            out.append(" mg");
        },
        1 => {
            push_dec(&mut out, n / 1000);
            out.append(" g");
        },
        2 => {
            push_one_decimal(&mut out, tenths_exec(n, 1_000_000));
            out.append(" kg");
        },
        _ => {
            push_dec(&mut out, n / 1_000_000);
            out.append(" kg");
        },
        }
        out
    }
}

impl Weight<Imperial> {
    /// The display text of this weight.
    pub fn render(&self) -> (r: String)
        ensures
            r@ == weight_imperial_text(self@),
    {
        let n = self.get();
        let b = weight_imperial_bounds_exec();
        proof {
            lemma_tables_sorted();
        }
        let i = tier_index(&b, n);
        let mut out = String::new();
        match i {
        0 => {
            out.append("0 oz");
        },
        1 => {
            out.append("1/8 tsp");
        },
        2 => {
            out.append("1/4 tsp");
        },
        3 => {
            out.append("1/2 tsp");
        },
        4 => {
            out.append("1 tsp");
        },
        5 => {
            out.append("1/2 tbsp");
        },
        6 => {
            out.append("1 tbsp");
        },
        7 => {
            push_one_decimal(&mut out, tenths_exec(n, OUNCE_MG));
            out.append(" oz");
        },
        8 => {
            push_one_decimal(&mut out, tenths_exec(n, OUNCE_MG));
            out.append(" oz");
        },
        9 => {
            push_one_decimal(&mut out, tenths_exec(n, POUND_MG));
            out.append(" g");
        },
        _ => {
            push_dec(&mut out, n / POUND_MG);
            out.append(" g");
        },
        }
        out
    }
}

impl Volume<Metric> {
    /// The display text of this volume.
    pub fn render(&self) -> (r: String)
        ensures
            r@ == volume_metric_text(self@),
    {
        let n = self.get();
        let b = volume_metric_bounds_exec();
        proof {
            lemma_tables_sorted();
        }
        let i = tier_index(&b, n);
        let mut out = String::new();
        match i {
        0 => {
            out.append("0 ml");
        },
        1 => {
            push_dec(&mut out, n / 1000);
            out.append(" ml");
        },
        2 => {
            push_one_decimal(&mut out, tenths_exec(n, 1_000_000));
            out.append(" l");
        },
        _ => {
            push_dec(&mut out, n / 1_000_000);
            out.append(" l");
        },
        }
        out
    }
}

impl Volume<Imperial> {
    /// The display text of this volume.
    pub fn render(&self) -> (r: String)
        ensures
            r@ == volume_imperial_text(self@),
    {
        let n = self.get();
        let b = volume_imperial_bounds_exec();
        proof {
            lemma_tables_sorted();
        }
        let i = tier_index(&b, n);
        let mut out = String::new();
        match i {
        0 => {
            out.append("0 tsp");
        },
        1 => {
            out.append("1/8 tsp");
        },
        2 => {
            out.append("1/4 tsp");
        },
        3 => {
            out.append("1/2 tsp");
        },
        4 => {
            out.append("3/4 tsp");
        },
        5 => {
            out.append("1 tsp");
        },
        6 => {
            out.append("1/2 tbsp");
        },
        7 => {
            out.append("1 tbsp");
        },
        8 => {
            push_one_decimal(&mut out, tenths_exec(n, FLUID_OUNCE));
            out.append(" floz");
        },
        9 => {
            push_one_decimal(&mut out, tenths_exec(n, CUP));
            out.append(" cups");
        },
        10 => {
            push_one_decimal(&mut out, tenths_exec(n, QUART));
            out.append(" quarts");
        },
        _ => {
            push_dec(&mut out, n / QUART);
            out.append(" quarts");
        },
        }
        out
    }
}


} // verus!
