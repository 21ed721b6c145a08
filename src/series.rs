use vstd::prelude::*;

use crate::decimal::{is_decimal, lemma_price_in_range, magnitude, parse_price, price_of, PriceError, MAX_MAGNITUDE};

verus! {

/// One day's record as the quote provider sends it: five decimal texts.
#[derive(Debug)]
pub struct DailyRecord {
    pub open: String,
    pub high: String,
    pub low: String,
    pub close: String,
    pub volume: String,
}

/// A closing price at its position in the series, in price units.
#[derive(Debug, Clone, Copy, PartialEq, Eq, Structural)]
pub struct PricePoint {
    pub index: usize,
    pub close: i64,
}

/// The closing prices in the order of the records, with the date labels and
/// the extrema.
#[derive(Debug)]
pub struct Series {
    pub points: Vec<PricePoint>,
    pub labels: Vec<String>,
    pub min: i64,
    pub max: i64,
    pub count: usize,
}

/// A record whose closing price cannot be read.
#[derive(Debug, Clone, Copy, PartialEq, Eq, Structural)]
pub struct CloseError {
    /// Position of the record among the entries.
    pub index: usize,
    pub reason: PriceError,
}

/// A closing-price text that reads as a price.
pub open spec fn close_ok(s: Seq<char>) -> bool {
    is_decimal(s) && magnitude(s) <= MAX_MAGNITUDE
}

impl Series {
    pub open spec fn wf(&self) -> bool {
        &&& self.count == self.points@.len()
        &&& self.count == self.labels@.len()
        &&& -MAX_MAGNITUDE <= self.min <= self.max <= MAX_MAGNITUDE
        &&& forall|i: int|
            0 <= i < self.count ==> (#[trigger] self.points@[i]).index == i && self.min
                <= self.points@[i].close <= self.max
        &&& self.count == 0 ==> self.min == 0 && self.max == 0
        &&& self.count > 0 ==> exists|i: int|
            0 <= i < self.count && (#[trigger] self.points@[i]).close == self.min
        &&& self.count > 0 ==> exists|i: int|
            0 <= i < self.count && (#[trigger] self.points@[i]).close == self.max
    }

    /// The series is the one that the entries give, in their order.
    pub open spec fn built_from(&self, entries: Seq<(String, DailyRecord)>) -> bool {
        &&& self.wf()
        &&& self.count == entries.len()
        &&& forall|i: int|
            0 <= i < entries.len() ==> close_ok(#[trigger] entries[i].1.close@)
                && self.points@[i].close == price_of(entries[i].1.close@) && self.labels@[i]@
                == entries[i].0@
    }
}

/// Turns the day records into a series: each entry gets the next index, its
/// date becomes the label, and its closing price is read; the extrema are
/// those of all closing prices, or both zero when there are no entries.
pub fn normalize(entries: &Vec<(String, DailyRecord)>) -> (r: Result<Series, CloseError>)
    ensures
        match r {
            Ok(s) => s.built_from(entries@),
            Err(e) => {
                &&& e.index < entries@.len()
                &&& forall|i: int| 0 <= i < e.index ==> close_ok(#[trigger] entries@[i].1.close@)
                &&& !close_ok(entries@[e.index as int].1.close@)
                &&& (e.reason == PriceError::NotDecimal) == !is_decimal(
                    entries@[e.index as int].1.close@,
                )
            },
        },
{
    let mut points: Vec<PricePoint> = Vec::new();
    let mut labels: Vec<String> = Vec::new();
    let mut min: i64 = 0;
    let mut max: i64 = 0;
    let mut i: usize = 0;
    while i < entries.len()
        invariant
            i <= entries@.len(),
            points@.len() == i,
            labels@.len() == i,
            -MAX_MAGNITUDE <= min <= max <= MAX_MAGNITUDE,
            i == 0 ==> min == 0 && max == 0,
            forall|j: int|
                0 <= j < i ==> close_ok((#[trigger] entries@[j]).1.close@) && points@[j].close
                    == price_of(entries@[j].1.close@) && labels@[j]@ == entries@[j].0@,
            forall|j: int|
                0 <= j < i ==> (#[trigger] points@[j]).index == j && min <= points@[j].close
                    <= max,
            i > 0 ==> exists|j: int| 0 <= j < i && (#[trigger] points@[j]).close == min,
            i > 0 ==> exists|j: int| 0 <= j < i && (#[trigger] points@[j]).close == max,
        decreases entries@.len() - i,
    {
        let entry = &entries[i];
        let close = match parse_price(entry.1.close.as_str()) {
            Ok(v) => v,
            Err(reason) => {
                return Err(CloseError { index: i, reason });
            },
        };
        proof {
            lemma_price_in_range(entry.1.close@);
        }
        let ghost old_points = points@;
        let ghost old_labels = labels@;
        let ghost old_min = min;
        let ghost old_max = max;
        if i == 0 || close < min {
            min = close;
        }
        if i == 0 || close > max {
            max = close;
        }
        points.push(PricePoint { index: i, close });
        labels.push(entry.0.clone());
        proof {
            assert(points@[i as int].close == close);
            assert(forall|j: int| 0 <= j < i ==> points@[j] == old_points[j]);
            assert(forall|j: int| 0 <= j < i ==> labels@[j] == old_labels[j]);
            assert(labels@[i as int]@ == entries@[i as int].0@);
            if min != close {
                let w = choose|j: int| 0 <= j < i && (#[trigger] old_points[j]).close == old_min;
                assert(points@[w].close == min);
            }
            if max != close {
                let w = choose|j: int| 0 <= j < i && (#[trigger] old_points[j]).close == old_max;
                assert(points@[w].close == max);
            }
        }
        i = i + 1;
    }
    let s = Series { points, labels, min, max, count: i };
    assert(s.wf());
    assert(forall|j: int|
        0 <= j < entries@.len() ==> close_ok(#[trigger] entries@[j].1.close@));
    assert(s.built_from(entries@));
    Ok(s)
}

/// Every closing price of a series built from entries lies between its
/// extrema, and it has one point per entry.
pub proof fn lemma_extrema_bound_every_point(entries: Seq<(String, DailyRecord)>, s: Series)
    requires
        s.built_from(entries),
    ensures
        s.count == entries.len(),
        forall|i: int| 0 <= i < s.count ==> s.min <= (#[trigger] s.points@[i]).close <= s.max,
{
}

} // verus!
