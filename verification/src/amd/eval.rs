//! How well a detector separates a live human from a machine.
use vstd::arithmetic::power2::{lemma2_to64, lemma2_to64_rest};
use vstd::prelude::*;
use vstd::string::StringExecFns;

use super::AmdClass;
use crate::nearest::{
    count, divided, lemma_count, lemma_per_below, lemma_product_below, lemma_total_below, multiplied,
    per, percent_of_none_and_of_all, power_bits, product, ratio, ratio_bits, summed, total,
};
use crate::single::Single;
use crate::text::{decimal, padded, push_padded, to_decimal};

verus! {

/// Number of classes: the confusion matrix is `N` x `N`.
pub const N: usize = 4;

/// How many of the first `n` pairs satisfy "actual class is `a`, predicted class is `p`".
pub open spec fn cell(pairs: Seq<(AmdClass, AmdClass)>, a: AmdClass, p: AmdClass, n: int) -> int
    decreases n,
{
    if n <= 0 {
        0
    } else {
        cell(pairs, a, p, n - 1) + (if pairs[n - 1] == (p, a) {
            1int
        } else {
            0
        })
    }
}

/// How many of the first `n` pairs predict a machine (or not) of a machine (or not).
pub open spec fn tally(
    pairs: Seq<(AmdClass, AmdClass)>,
    predicted: bool,
    actual: bool,
    n: int,
) -> int
    decreases n,
{
    if n <= 0 {
        0
    } else {
        tally(pairs, predicted, actual, n - 1) + (if (pairs[n - 1].0 != AmdClass::Human)
            == predicted && (pairs[n - 1].1 != AmdClass::Human) == actual {
            1int
        } else {
            0
        })
    }
}

/// Precision, recall and F1 with "machine" as the positive class.
#[derive(Clone, Copy, Debug, PartialEq, Eq, Structural)]
pub struct BinaryMetrics {
    pub precision: Single,
    pub recall: Single,
    pub f1: Single,
}

/// The bits of a share; 0 of nothing.
pub open spec fn share_bits(part: int, whole: int) -> int {
    if whole == 0 {
        0
    } else {
        ratio_bits(part, whole)
    }
}

fn share(part: u32, whole: u64) -> (r: Single)
    requires
        whole <= 0x2_0000_0000,
    ensures
        r.bits == share_bits(part as int, whole as int),
        r.bits <= power_bits(33),
{
    if whole == 0 {
        Single { bits: 0 }
    } else {
        proof {
            lemma2_to64();
            lemma2_to64_rest();
            lemma_count(part as int, 32);
            lemma_count(whole as int, 33);
            lemma_per_below(count(part as int), count(whole as int), 32);
        }
        ratio(part as u64, whole)
    }
}

/// The bits of 2.
pub const TWO: u32 = 0x4000_0000;

/// The bits of the harmonic mean of two numbers, each step in single precision; 0 where both are 0.
pub open spec fn f1_bits(precision: int, recall: int) -> int {
    let sum = total(precision, recall);
    if sum == 0 {
        0
    } else {
        per(product(product(TWO as int, precision), recall), sum)
    }
}

fn harmonic(precision: Single, recall: Single) -> (r: Single)
    requires
        precision.bits <= power_bits(33),
        recall.bits <= power_bits(33),
    ensures
        r.bits == f1_bits(precision.bits as int, recall.bits as int),
{
    proof {
        let p = precision.bits as int;
        let q = recall.bits as int;
        lemma_total_below(p, q, 33);
        lemma_product_below(TWO as int, p, 1, 33);
        lemma_product_below(product(TWO as int, p), q, 34, 33);
    }
    let sum: Single = summed(precision, recall);
    if sum.bits == 0 {
        Single { bits: 0 }
    } else {
        let twice: Single = multiplied(Single { bits: TWO }, precision);
        divided(multiplied(twice, recall), sum)
    }
}

/// `pairs` are `(predicted, actual)`.
pub fn binary_metrics(pairs: &[(AmdClass, AmdClass)]) -> (r: BinaryMetrics)
    requires
        pairs@.len() <= u32::MAX,
    ensures
        ({
            let n = pairs@.len() as int;
            let tp = tally(pairs@, true, true, n);
            let fp = tally(pairs@, true, false, n);
            let missed = tally(pairs@, false, true, n);
            &&& r.precision.bits == share_bits(tp, tp + fp)
            &&& r.recall.bits == share_bits(tp, tp + missed)
            &&& r.f1.bits == f1_bits(share_bits(tp, tp + fp), share_bits(tp, tp + missed))
        }),
{
    let mut tp: u32 = 0;
    let mut fp: u32 = 0;
    let mut missed: u32 = 0;
    let mut i: usize = 0;
    while i < pairs.len()
        invariant
            i <= pairs@.len() <= u32::MAX,
            tp == tally(pairs@, true, true, i as int),
            fp == tally(pairs@, true, false, i as int),
            missed == tally(pairs@, false, true, i as int),
            tp + fp + missed <= i,
        decreases pairs@.len() - i,
    {
        let (predicted, actual): (AmdClass, AmdClass) = pairs[i];
        match (predicted.is_machine(), actual.is_machine()) {
            (true, true) => {
                tp = tp + 1;
            },
            (true, false) => {
                fp = fp + 1;
            },
            (false, true) => {
                missed = missed + 1;
            },
            (false, false) => {},
        }
        i = i + 1;
    }
    let precision: Single = share(tp, tp as u64 + fp as u64);
    let recall: Single = share(tp, tp as u64 + missed as u64);
    BinaryMetrics { precision, recall, f1: harmonic(precision, recall) }
}

/// The cell of a confusion matrix.
pub open spec fn entry(m: [[u32; 4]; 4], a: AmdClass, p: AmdClass) -> u32 {
    m@[a.place()]@[p.place()]
}

/// Confusion counts indexed `[actual][predicted]` in the classes' stable order.
pub fn confusion(pairs: &[(AmdClass, AmdClass)]) -> (r: [[u32; 4]; 4])
    requires
        pairs@.len() <= u32::MAX,
    ensures
        forall|a: AmdClass, p: AmdClass| #[trigger]
            entry(r, a, p) == cell(pairs@, a, p, pairs@.len() as int),
{
    let mut m: [[u32; 4]; 4] = [[0u32; 4]; 4];
    let mut i: usize = 0;
    assert forall|a: AmdClass, p: AmdClass| #[trigger] entry(m, a, p) == 0 by {
        super::places_name_classes(a, 0);
        super::places_name_classes(p, 0);
    }
    while i < pairs.len()
        invariant
            i <= pairs@.len() <= u32::MAX,
            forall|a: AmdClass, p: AmdClass| #[trigger]
                entry(m, a, p) == cell(pairs@, a, p, i as int),
            forall|a: AmdClass, p: AmdClass| #[trigger] entry(m, a, p) <= i,
        decreases pairs@.len() - i,
    {
        let (predicted, actual): (AmdClass, AmdClass) = pairs[i];
        let ghost before = m;
        assert(entry(m, actual, predicted) <= i);
        let mut row: [u32; 4] = m[actual.index()];
        row[predicted.index()] = row[predicted.index()] + 1;
        m[actual.index()] = row;
        i = i + 1;
        assert forall|a: AmdClass, p: AmdClass| #[trigger]
            entry(m, a, p) == cell(pairs@, a, p, i as int) && entry(m, a, p) <= i by {
            super::places_name_classes(a, 0);
            super::places_name_classes(p, 0);
            assert(entry(before, a, p) == cell(pairs@, a, p, i - 1));
            assert(entry(before, a, p) <= i - 1);
            super::places_name_classes(actual, 0);
            super::places_name_classes(predicted, 0);
        }
    }
    m
}

/// One row of a rendered matrix, up to column `n`.
pub open spec fn row_text(m: [[u32; 4]; 4], a: AmdClass, n: int) -> Seq<char>
    decreases n,
{
    if n <= 0 {
        padded(a.name(), 10)
    } else {
        row_text(m, a, n - 1) + padded(decimal(entry(m, a, AmdClass::at(n - 1)) as int), 10)
    }
}

/// The heading, up to column `n`.
pub open spec fn head_text(n: int) -> Seq<char>
    decreases n,
{
    if n <= 0 {
        "confusion (rows=actual, cols=predicted):\n"@ + padded(""@, 10)
    } else {
        head_text(n - 1) + padded(AmdClass::at(n - 1).name(), 10)
    }
}

/// A rendered matrix, up to row `n`: rows are actual, columns predicted classes.
pub open spec fn matrix_text(m: [[u32; 4]; 4], n: int) -> Seq<char>
    decreases n,
{
    if n <= 0 {
        head_text(4) + "\n"@
    } else {
        matrix_text(m, n - 1) + row_text(m, AmdClass::at(n - 1), 4) + "\n"@
    }
}

/// The class at a place of the stable order.
fn class_at(i: usize) -> (r: AmdClass)
    requires
        i < 4,
    ensures
        r == AmdClass::at(i as int),
{
    if i == 0 {
        AmdClass::Human
    } else if i == 1 {
        AmdClass::Voicemail
    } else if i == 2 {
        AmdClass::Ivr
    } else {
        AmdClass::Hold
    }
}

/// Render a confusion matrix (rows = actual, columns = predicted) as text.
pub fn render_confusion(m: &[[u32; 4]; 4]) -> (r: String)
    ensures
        r@ == matrix_text(*m, 4),
{
    let mut s: String = "confusion (rows=actual, cols=predicted):\n".to_owned();
    push_padded(&mut s, "", 10);
    let mut i: usize = 0;
    while i < N
        invariant
            i <= N,
            s@ == head_text(i as int),
        decreases N - i,
    {
        push_padded(&mut s, class_at(i).label(), 10);
        i = i + 1;
    }
    s.append("\n");
    let mut a: usize = 0;
    while a < N
        invariant
            a <= N,
            s@ == matrix_text(*m, a as int),
        decreases N - a,
    {
        let actual: AmdClass = class_at(a);
        let ghost before = s@;
        push_padded(&mut s, actual.label(), 10);
        let mut p: usize = 0;
        while p < N
            invariant
                a < N,
                p <= N,
                actual == AmdClass::at(a as int),
                s@ == before + row_text(*m, actual, p as int),
            decreases N - p,
        {
            proof {
                super::places_name_classes(actual, a as int);
                super::places_name_classes(actual, p as int);
            }
            let count: u32 = m[a][p];
            push_padded(&mut s, to_decimal(count as u64).as_str(), 10);
            p = p + 1;
            assert(s@ =~= before + row_text(*m, actual, p as int));
        }
        s.append("\n");
        a = a + 1;
        assert(s@ =~= matrix_text(*m, a as int));
    }
    s
}

/// Every pair is counted in exactly one cell.
pub proof fn cells_sum_to_the_pairs(pairs: Seq<(AmdClass, AmdClass)>, n: int)
    requires
        0 <= n <= pairs.len(),
    ensures
        row_sum(pairs, AmdClass::Human, n) + row_sum(pairs, AmdClass::Voicemail, n) + row_sum(
            pairs,
            AmdClass::Ivr,
            n,
        ) + row_sum(pairs, AmdClass::Hold, n) == n,
    decreases n,
{
    if n > 0 {
        cells_sum_to_the_pairs(pairs, n - 1);
        let (p, a) = pairs[n - 1];
        lemma_row_grows(pairs, AmdClass::Human, n);
        lemma_row_grows(pairs, AmdClass::Voicemail, n);
        lemma_row_grows(pairs, AmdClass::Ivr, n);
        lemma_row_grows(pairs, AmdClass::Hold, n);
    } else {
        assert(forall|a: AmdClass, p: AmdClass| cell(pairs, a, p, 0) == 0);
    }
}

proof fn lemma_row_grows(pairs: Seq<(AmdClass, AmdClass)>, a: AmdClass, n: int)
    requires
        0 < n <= pairs.len(),
    ensures
        row_sum(pairs, a, n) == row_sum(pairs, a, n - 1) + (if pairs[n - 1].1 == a {
            1int
        } else {
            0
        }),
{
    let (predicted, actual) = pairs[n - 1];
    match predicted {
        AmdClass::Human => {},
        AmdClass::Voicemail => {},
        AmdClass::Ivr => {},
        AmdClass::Hold => {},
    }
}

/// All cells of an actual class.
pub open spec fn row_sum(pairs: Seq<(AmdClass, AmdClass)>, a: AmdClass, n: int) -> int {
    cell(pairs, a, AmdClass::Human, n) + cell(pairs, a, AmdClass::Voicemail, n) + cell(
        pairs,
        a,
        AmdClass::Ivr,
        n,
    ) + cell(pairs, a, AmdClass::Hold, n)
}

/// The tallies and the cells count each pair once: `tally` those that were predicted a machine or
/// not and are one or not, `cell` those of one predicted and one actual class.
pub proof fn pairs_are_counted_once(
    pairs: Seq<(AmdClass, AmdClass)>,
    predicted: bool,
    actual: bool,
    a: AmdClass,
    p: AmdClass,
    n: int,
)
    requires
        0 <= n <= pairs.len(),
    ensures
        tally(pairs, predicted, actual, n) == pairs.take(n).filter(
            |x: (AmdClass, AmdClass)|
                (x.0 != AmdClass::Human) == predicted && (x.1 != AmdClass::Human) == actual,
        ).len(),
        cell(pairs, a, p, n) == pairs.take(n).filter(
            |x: (AmdClass, AmdClass)| x.0 == p && x.1 == a,
        ).len(),
    decreases n,
{
    reveal(Seq::filter);
    if n > 0 {
        pairs_are_counted_once(pairs, predicted, actual, a, p, n - 1);
        let x = pairs[n - 1];
        assert(pairs.take(n) =~= pairs.take(n - 1).push(x));
        pairs.take(n - 1).lemma_filter_push(
            x,
            |x: (AmdClass, AmdClass)|
                (x.0 != AmdClass::Human) == predicted && (x.1 != AmdClass::Human) == actual,
        );
        pairs.take(n - 1).lemma_filter_push(
            x,
            |x: (AmdClass, AmdClass)| x.0 == p && x.1 == a,
        );
    } else {
        assert(pairs.take(0) =~= Seq::empty());
    }
}

/// Every pair is in exactly one of the four tallies.
pub proof fn tallies_sum_to_the_pairs(pairs: Seq<(AmdClass, AmdClass)>, n: int)
    requires
        0 <= n <= pairs.len(),
    ensures
        tally(pairs, true, true, n) + tally(pairs, true, false, n) + tally(pairs, false, true, n)
            + tally(pairs, false, false, n) == n,
        tally(pairs, true, true, n) >= 0,
        tally(pairs, true, false, n) >= 0,
        tally(pairs, false, true, n) >= 0,
        tally(pairs, false, false, n) >= 0,
    decreases n,
{
    if n > 0 {
        tallies_sum_to_the_pairs(pairs, n - 1);
    }
}

/// The ends of the scale: no machine found is a zero throughout, no false alarm among the machines
/// found is a precision of one, and no machine missed a recall of one.
pub proof fn metrics_span_none_to_all(pairs: &[(AmdClass, AmdClass)], r: BinaryMetrics)
    requires
        pairs@.len() <= u32::MAX,
        call_ensures(binary_metrics, (pairs,), r),
    ensures
        ({
            let n = pairs@.len() as int;
            let found = tally(pairs@, true, true, n);
            let alarms = tally(pairs@, true, false, n);
            let missed = tally(pairs@, false, true, n);
            &&& found == 0 ==> r.precision.bits == 0 && r.recall.bits == 0 && r.f1.bits == 0
            &&& found > 0 && alarms == 0 ==> r.precision.bits == 0x3F80_0000
            &&& found > 0 && missed == 0 ==> r.recall.bits == 0x3F80_0000
        }),
{
    let n = pairs@.len() as int;
    let found = tally(pairs@, true, true, n);
    let alarms = tally(pairs@, true, false, n);
    let missed = tally(pairs@, false, true, n);
    tallies_sum_to_the_pairs(pairs@, n);
    if found == 0 {
        if alarms > 0 {
            percent_of_none_and_of_all(alarms);
        }
        if missed > 0 {
            percent_of_none_and_of_all(missed);
        }
    } else {
        percent_of_none_and_of_all(found);
    }
}

} // verus!
