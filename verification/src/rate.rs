//! Exchange rates and the rows that a rate store returns.
//!
//! A row is found by its currency code, never by its position: the store may
//! return its rows in any order.

use crate::decimal::{Decimal, DecimalValue};
use crate::error::{ConversionError, Missing};
use vstd::prelude::*;

verus! {

/// The value of one currency against the common reference currency.
#[derive(Debug, PartialEq, Eq)]
pub struct Rate {
    /// The currency code, such as `USD`.
    pub country: String,
    /// The quoted value.
    pub value: Decimal,
}

/// What a [`Rate`] stands for.
pub struct RateValue {
    pub country: Seq<char>,
    pub value: DecimalValue,
}

impl View for Rate {
    type V = RateValue;

    open spec fn view(&self) -> RateValue {
        RateValue { country: self.country@, value: self.value@ }
    }
}

impl Clone for Rate {
    fn clone(&self) -> (copy: Self)
        ensures
            copy@ == self@,
    {
        Rate { country: self.country.clone(), value: self.value.clone() }
    }
}

/// What a sequence of rows stands for, row by row.
pub open spec fn rates_of(rows: Seq<Rate>) -> Seq<RateValue> {
    rows.map_values(|r: Rate| r@)
}

/// Row `i` exists and quotes the currency `code`.
pub open spec fn quotes_at(rows: Seq<RateValue>, code: Seq<char>, i: int) -> bool {
    0 <= i < rows.len() && rows[i].country == code
}

/// No row quotes `code`.
pub open spec fn missing(rows: Seq<RateValue>, code: Seq<char>) -> bool {
    forall|i: int| !quotes_at(rows, code, i)
}

/// Row `i` quotes `code`, and no other row does.
pub open spec fn quoted_only_at(rows: Seq<RateValue>, code: Seq<char>, i: int) -> bool {
    &&& quotes_at(rows, code, i)
    &&& forall|j: int| quotes_at(rows, code, j) ==> j == i
}

/// Exactly one row quotes `code`.
pub open spec fn quoted_once(rows: Seq<RateValue>, code: Seq<char>) -> bool {
    exists|i: int| quoted_only_at(rows, code, i)
}

/// Two different rows quote `code`.
pub open spec fn quoted_twice(rows: Seq<RateValue>, code: Seq<char>) -> bool {
    exists|i: int, j: int| quotes_at(rows, code, i) && quotes_at(rows, code, j) && i != j
}

/// The value that `rows` quote for `code`: that of a row with this code.
/// Where exactly one row quotes `code`, it is that row's.
pub open spec fn rate_of(rows: Seq<RateValue>, code: Seq<char>) -> DecimalValue {
    rows[choose|i: int| quotes_at(rows, code, i)].value
}

/// Of missing, quoted once and quoted twice, exactly one holds.
pub proof fn lemma_quoted_cases(rows: Seq<RateValue>, code: Seq<char>)
    ensures
        missing(rows, code) || quoted_once(rows, code) || quoted_twice(rows, code),
        !(missing(rows, code) && quoted_once(rows, code)),
        !(missing(rows, code) && quoted_twice(rows, code)),
        !(quoted_once(rows, code) && quoted_twice(rows, code)),
{
    if !missing(rows, code) {
        let i = choose|i: int| quotes_at(rows, code, i);
        if !quoted_only_at(rows, code, i) {
            let j = choose|j: int| quotes_at(rows, code, j) && j != i;
            assert(quotes_at(rows, code, i) && quotes_at(rows, code, j) && i != j);
        }
    }
}

/// What a search for a currency code among rows finds.
#[derive(Debug, Clone, Copy, PartialEq, Eq, Structural)]
pub enum Lookup {
    /// No row quotes the code.
    Missing,
    /// The row at this index quotes the code, and no other does.
    Single(usize),
    /// More than one row quotes the code.
    Repeated,
}

/// Searches `rows` for the currency `code`.
pub fn lookup(rows: &Vec<Rate>, code: &String) -> (r: Lookup)
    ensures
        match r {
            Lookup::Missing => missing(rates_of(rows@), code@),
            Lookup::Single(i) => quoted_only_at(rates_of(rows@), code@, i as int),
            Lookup::Repeated => quoted_twice(rates_of(rows@), code@),
        },
{
    let ghost table = rates_of(rows@);
    let mut found: Option<usize> = None;
    let mut i: usize = 0;
    while i < rows.len()
        invariant
            i <= rows.len(),
            table == rates_of(rows@),
            match found {
                None => forall|j: int| 0 <= j < i ==> !quotes_at(table, code@, j),
                Some(k) => k < i && quotes_at(table, code@, k as int) && forall|j: int|
                    0 <= j < i && quotes_at(table, code@, j) ==> j == k,
            },
        decreases rows.len() - i,
    {
        if rows[i].country == *code {
            assert(quotes_at(table, code@, i as int));
            match found {
                Some(k) => {
                    assert(quotes_at(table, code@, k as int) && quotes_at(table, code@, i as int)
                        && k != i);
                    return Lookup::Repeated;
                },
                None => {
                    found = Some(i);
                },
            }
        } else {
            assert(!quotes_at(table, code@, i as int));
        }
        i = i + 1;
    }
    match found {
        None => Lookup::Missing,
        Some(k) => Lookup::Single(k),
    }
}

/// Whether a store returns `row` when asked for the codes `source` and `target`.
pub open spec fn wanted(row: RateValue, source: Seq<char>, target: Seq<char>) -> bool {
    row.country == source || row.country == target
}

/// The rows of `all` that a store returns for the codes `source` and
/// `target`: those that quote one of the two, in the order in which `all`
/// holds them.
pub open spec fn selected(all: Seq<RateValue>, source: Seq<char>, target: Seq<char>) -> Seq<
    RateValue,
>
    decreases all.len(),
{
    if all.len() == 0 {
        Seq::empty()
    } else {
        let before = selected(all.drop_last(), source, target);
        if wanted(all.last(), source, target) {
            before.push(all.last())
        } else {
            before
        }
    }
}

/// Where row `i` of `all` stands among the selected rows: the number of
/// selected rows before it.
pub open spec fn place_of(all: Seq<RateValue>, source: Seq<char>, target: Seq<char>, i: int) -> int {
    selected(all.take(i), source, target).len() as int
}

/// Row `j` of the selection is row `i` of `all`.
pub open spec fn comes_from(
    all: Seq<RateValue>,
    source: Seq<char>,
    target: Seq<char>,
    j: int,
    i: int,
) -> bool {
    &&& 0 <= i < all.len()
    &&& wanted(all[i], source, target)
    &&& place_of(all, source, target, i) == j
    &&& 0 <= j < selected(all, source, target).len()
    &&& selected(all, source, target)[j] == all[i]
}

/// A wanted row is in the selection, at its place.
pub proof fn lemma_selected_keeps(all: Seq<RateValue>, source: Seq<char>, target: Seq<char>, i: int)
    requires
        0 <= i < all.len(),
        wanted(all[i], source, target),
    ensures
        comes_from(all, source, target, place_of(all, source, target, i), i),
    decreases all.len(),
{
    let shorter = all.drop_last();
    if i < all.len() - 1 {
        lemma_selected_keeps(shorter, source, target, i);
        assert(shorter.take(i) =~= all.take(i));
    } else {
        assert(all.take(i) =~= shorter);
    }
}

/// Of two wanted rows, the earlier one has the earlier place.
pub proof fn lemma_selected_order(
    all: Seq<RateValue>,
    source: Seq<char>,
    target: Seq<char>,
    i: int,
    j: int,
)
    requires
        0 <= i < j < all.len(),
        wanted(all[i], source, target),
    ensures
        place_of(all, source, target, i) < place_of(all, source, target, j),
{
    lemma_selected_keeps(all.take(j), source, target, i);
    assert(all.take(j).take(i) =~= all.take(i));
}

/// Every row of the selection is a wanted row of `all`.
pub proof fn lemma_selected_from(all: Seq<RateValue>, source: Seq<char>, target: Seq<char>, j: int)
    requires
        0 <= j < selected(all, source, target).len(),
    ensures
        exists|i: int| comes_from(all, source, target, j, i),
    decreases all.len(),
{
    let shorter = all.drop_last();
    let before = selected(shorter, source, target);
    if wanted(all.last(), source, target) && j == before.len() {
        let i = all.len() - 1;
        assert(all.take(i) =~= shorter);
        assert(comes_from(all, source, target, j, i));
    } else {
        lemma_selected_from(shorter, source, target, j);
        let i = choose|i: int| comes_from(shorter, source, target, j, i);
        assert(shorter.take(i) =~= all.take(i));
        assert(comes_from(all, source, target, j, i));
    }
}

/// What a store returns for two codes says of each of them what the whole
/// table says: whether it is missing, whether it is quoted once, and at
/// which rate.
pub proof fn lemma_selection_keeps_rates(
    all: Seq<RateValue>,
    source: Seq<char>,
    target: Seq<char>,
    code: Seq<char>,
)
    requires
        code == source || code == target,
    ensures
        missing(selected(all, source, target), code) <==> missing(all, code),
        quoted_once(selected(all, source, target), code) <==> quoted_once(all, code),
        quoted_once(all, code) ==> rate_of(selected(all, source, target), code) == rate_of(
            all,
            code,
        ),
{
    let rows = selected(all, source, target);
    lemma_quoted_cases(all, code);
    lemma_quoted_cases(rows, code);
    if !missing(rows, code) {
        let j = choose|j: int| quotes_at(rows, code, j);
        lemma_selected_from(all, source, target, j);
        let i = choose|i: int| comes_from(all, source, target, j, i);
        assert(quotes_at(all, code, i));
    }
    if !missing(all, code) {
        let i = choose|i: int| quotes_at(all, code, i);
        lemma_selected_keeps(all, source, target, i);
        assert(quotes_at(rows, code, place_of(all, source, target, i)));
    }
    if quoted_twice(all, code) {
        let (i, j) = choose|i: int, j: int|
            quotes_at(all, code, i) && quotes_at(all, code, j) && i != j;
        lemma_selected_keeps(all, source, target, i);
        lemma_selected_keeps(all, source, target, j);
        if i < j {
            lemma_selected_order(all, source, target, i, j);
        } else {
            lemma_selected_order(all, source, target, j, i);
        }
        let p = place_of(all, source, target, i);
        let q = place_of(all, source, target, j);
        assert(quotes_at(rows, code, p) && quotes_at(rows, code, q) && p != q);
    }
    if quoted_twice(rows, code) {
        let (p, q) = choose|p: int, q: int|
            quotes_at(rows, code, p) && quotes_at(rows, code, q) && p != q;
        lemma_selected_from(all, source, target, p);
        lemma_selected_from(all, source, target, q);
        let i = choose|i: int| comes_from(all, source, target, p, i);
        let j = choose|j: int| comes_from(all, source, target, q, j);
        assert(quotes_at(all, code, i) && quotes_at(all, code, j) && i != j);
    }
    if quoted_once(all, code) {
        let i = choose|i: int| quotes_at(all, code, i);
        lemma_selected_keeps(all, source, target, i);
        let p = place_of(all, source, target, i);
        assert(quotes_at(rows, code, p));
        let k = choose|k: int| quotes_at(rows, code, k);
        let only = choose|u: int| quoted_only_at(rows, code, u);
        assert(k == only && p == only);
    }
}

/// Reads from rates held in memory as a store reads from its table: returns
/// the rows whose currency is `source` or `target`.
pub fn select_rows(all: &Vec<Rate>, source: &String, target: &String) -> (rows: Vec<Rate>)
    ensures
        rates_of(rows@) == selected(rates_of(all@), source@, target@),
{
    let ghost table = rates_of(all@);
    let mut rows: Vec<Rate> = Vec::new();
    let mut i: usize = 0;
    assert(rates_of(rows@) =~= selected(table.take(0), source@, target@));
    while i < all.len()
        invariant
            i <= all.len(),
            table == rates_of(all@),
            rates_of(rows@) == selected(table.take(i as int), source@, target@),
        decreases all.len() - i,
    {
        proof {
            let longer = table.take(i + 1);
            assert(longer.drop_last() =~= table.take(i as int));
            assert(longer.last() == all[i as int]@);
        }
        if all[i].country == *source || all[i].country == *target {
            assert(wanted(all[i as int]@, source@, target@));
            let row: Rate = all[i].clone();
            assert(rates_of(rows@.push(row)) =~= rates_of(rows@).push(row@));
            rows.push(row);
        }
        i = i + 1;
    }
    assert(table.take(all.len() as int) =~= table);
    rows
}

/// What the rows that a store returned for two currency codes say of the
/// store: `RateNotFound` where it has no row for one of the codes, and for
/// which; `InternalError` where it has more than one, which breaks the rule
/// of one row per currency; and `Ok` where each code has its one row.
pub open spec fn store_verdict(rows: Seq<RateValue>, source: Seq<char>, target: Seq<char>) -> Result<
    (),
    ConversionError,
> {
    if missing(rows, source) && missing(rows, target) {
        Err(ConversionError::RateNotFound(Missing::Both))
    } else if missing(rows, source) {
        Err(ConversionError::RateNotFound(Missing::Source))
    } else if missing(rows, target) {
        Err(ConversionError::RateNotFound(Missing::Target))
    } else if quoted_once(rows, source) && quoted_once(rows, target) {
        Ok(())
    } else {
        Err(ConversionError::InternalError)
    }
}

/// Checks the rows that a store returned for `source` and `target`. The two
/// codes may be the same: one row then serves both.
pub fn check_rows(rows: &Vec<Rate>, source: &String, target: &String) -> (r: Result<
    (),
    ConversionError,
>)
    ensures
        r == store_verdict(rates_of(rows@), source@, target@),
{
    proof {
        lemma_quoted_cases(rates_of(rows@), source@);
        lemma_quoted_cases(rates_of(rows@), target@);
    }
    let from_source: Lookup = lookup(rows, source);
    let from_target: Lookup = lookup(rows, target);
    match (from_source, from_target) {
        (Lookup::Missing, Lookup::Missing) => Err(ConversionError::RateNotFound(Missing::Both)),
        (Lookup::Missing, _) => Err(ConversionError::RateNotFound(Missing::Source)),
        (_, Lookup::Missing) => Err(ConversionError::RateNotFound(Missing::Target)),
        (Lookup::Single(_), Lookup::Single(_)) => Ok(()),
        _ => Err(ConversionError::InternalError),
    }
}

} // verus!
