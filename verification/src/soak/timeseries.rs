//! Collected samples and the verdict on whether a column stayed bounded.
//! Samples are double-precision bit patterns; what needs their arithmetic (a
//! slope, a mean of two, a growth rate) is computed by the caller and handed
//! in as facts.

use vstd::prelude::*;
use crate::sample::{is_nan, nan, in_order, less, numbers, numbers_of, ordered, place, rises, step_rises, MISSING};
use crate::text::{same, texts};

verus! {

/// How a column is judged.
#[derive(Debug, Clone, Copy, PartialEq, Eq, Structural)]
pub enum MetricKind {
    /// Must not climb over the run.
    Trend,
    /// A monotonic counter: may rise, but not at a growing rate.
    Counter,
    /// A counter that must stay zero.
    CounterMustBeZero,
}

/// The verdict on a column.
#[derive(Debug, Clone, Copy, PartialEq, Eq, Structural)]
pub enum Verdict {
    Bounded,
    Drift,
    Inconclusive,
}

impl Verdict {
    /// The stable name of the verdict.
    pub fn as_str(self) -> (r: &'static str)
        ensures
            r@ == match self {
                Verdict::Bounded => "BOUNDED"@,
                Verdict::Drift => "DRIFT"@,
                Verdict::Inconclusive => "INCONCLUSIVE"@,
            },
    {
        match self {
            Verdict::Bounded => "BOUNDED",
            Verdict::Drift => "DRIFT",
            Verdict::Inconclusive => "INCONCLUSIVE",
        }
    }
}

/// The stable name of a kind.
pub fn kind_str(k: MetricKind) -> (r: &'static str)
    ensures
        r@ == match k {
            MetricKind::Trend => "trend"@,
            MetricKind::Counter => "counter"@,
            MetricKind::CounterMustBeZero => "counter_must_be_zero"@,
        },
{
    match k {
        MetricKind::Trend => "trend",
        MetricKind::Counter => "counter",
        MetricKind::CounterMustBeZero => "counter_must_be_zero",
    }
}

// ---------------------------------------------------------------------------
// The series
// ---------------------------------------------------------------------------

/// One sample: an instant and a cell per column.
#[derive(Debug)]
pub struct Row {
    pub t: u64,
    pub cells: Vec<u64>,
}

/// Samples over time.
#[derive(Debug)]
pub struct TimeSeries {
    columns: Vec<String>,
    rows: Vec<Row>,
}

/// A row brought to the width of the series: missing cells are filled up,
/// surplus ones dropped.
pub open spec fn fitted(values: Seq<u64>, width: nat) -> Seq<u64> {
    Seq::new(width, |i: int| cell(values, i))
}

/// A cell of a row; one that the row lacks is missing.
pub open spec fn cell(values: Seq<u64>, i: int) -> u64 {
    if i < values.len() {
        values[i]
    } else {
        MISSING
    }
}

/// The first position of a name among the columns, or their number.
pub open spec fn column_index(columns: Seq<Seq<char>>, name: Seq<char>) -> nat
    decreases columns.len(),
{
    if columns.len() == 0 || columns[0] == name {
        0
    } else {
        1 + column_index(columns.skip(1), name)
    }
}

fn index_of(columns: &Vec<String>, name: &str) -> (i: usize)
    ensures
        i == column_index(texts(columns@), name@),
        i <= columns@.len(),
{
    let ghost names = texts(columns@);
    let mut i: usize = 0;
    assert(names.skip(0) =~= names);
    while i < columns.len() && !same(&columns[i], name)
        invariant
            i <= columns@.len(),
            names == texts(columns@),
            column_index(names, name@) == i + column_index(names.skip(i as int), name@),
        decreases columns@.len() - i,
    {
        assert(names.skip(i as int).skip(1) =~= names.skip(i + 1));
        i += 1;
    }
    i
}

impl TimeSeries {
    /// The column names.
    pub closed spec fn names(&self) -> Seq<Seq<char>> {
        texts(self.columns@)
    }

    /// The instants.
    pub closed spec fn times(&self) -> Seq<u64> {
        self.rows@.map_values(|r: Row| r.t)
    }

    /// The cells, row by row.
    pub closed spec fn cells(&self) -> Seq<Seq<u64>> {
        self.rows@.map_values(|r: Row| r.cells@)
    }

    /// Whether every row has one cell per column.
    pub open spec fn aligned(&self) -> bool {
        forall|i: int| 0 <= i < self.cells().len() ==> (#[trigger] self.cells()[i]).len() == self.names().len()
    }

    /// A series without samples.
    pub fn new(columns: Vec<String>) -> (r: Self)
        ensures
            r.names() == texts(columns@),
            r.times() == Seq::<u64>::empty(),
            r.cells() == Seq::<Seq<u64>>::empty(),
            r.aligned(),
    {
        let r = TimeSeries { columns, rows: Vec::new() };
        assert(r.cells() =~= Seq::<Seq<u64>>::empty());
        assert(r.times() =~= Seq::<u64>::empty());
        r
    }

    /// The column names.
    pub fn columns(&self) -> (r: &Vec<String>)
        ensures
            texts(r@) == self.names(),
    {
        &self.columns
    }

    /// The rows.
    pub fn rows(&self) -> (r: &Vec<Row>)
        ensures
            r@.map_values(|x: Row| x.t) == self.times(),
            r@.map_values(|x: Row| x.cells@) == self.cells(),
    {
        &self.rows
    }

    /// How many samples there are.
    pub fn len(&self) -> (n: usize)
        ensures
            n == self.times().len(),
            n == self.cells().len(),
    {
        self.rows.len()
    }

    /// Whether there is no sample.
    pub fn is_empty(&self) -> (r: bool)
        ensures
            r == (self.times().len() == 0),
    {
        self.rows.len() == 0
    }

    /// Appends a sample. Cells that it lacks are filled up, so a scrape miss
    /// does not shift the columns.
    pub fn push(&mut self, t_secs: u64, values: Vec<u64>)
        ensures
            final(self).names() == old(self).names(),
            final(self).times() == old(self).times().push(t_secs),
            final(self).cells() == old(self).cells().push(fitted(values@, old(self).names().len())),
            old(self).aligned() ==> final(self).aligned(),
    {
        let width: usize = self.columns.len();
        let mut row: Vec<u64> = Vec::new();
        let mut i: usize = 0;
        while i < width
            invariant
                i <= width,
                row@ == fitted(values@, i as nat),
            decreases width - i,
        {
            if i < values.len() {
                row.push(values[i]);
            } else {
                row.push(MISSING);
            }
            assert(row@ =~= fitted(values@, (i + 1) as nat));
            i += 1;
        }
        self.rows.push(Row { t: t_secs, cells: row });
        assert(self.times() =~= old(self).times().push(t_secs));
        assert(self.cells() =~= old(self).cells().push(fitted(values@, old(self).names().len())));
    }

    /// The samples of the first column called `col`, oldest first.
    pub fn column_values(&self, col: &str) -> (r: Option<Vec<u64>>)
        ensures
            match r {
                Some(values) => {
                    let k = column_index(self.names(), col@);
                    &&& k < self.names().len()
                    &&& values@ == self.cells().map_values(|row: Seq<u64>| cell(row, k as int))
                },
                None => column_index(self.names(), col@) == self.names().len(),
            },
    {
        let k: usize = index_of(&self.columns, col);
        if k == self.columns.len() {
            return None;
        }
        let mut out: Vec<u64> = Vec::new();
        let mut i: usize = 0;
        while i < self.rows.len()
            invariant
                i <= self.rows@.len(),
                out@ == self.cells().map_values(|row: Seq<u64>| cell(row, k as int)).take(i as int),
            decreases self.rows@.len() - i,
        {
            let v: u64 = if k < self.rows[i].cells.len() { self.rows[i].cells[k] } else { MISSING };
            assert(self.cells()[i as int] == self.rows@[i as int].cells@);
            out.push(v);
            assert(out@ =~= self.cells().map_values(|row: Seq<u64>| cell(row, k as int)).take(i + 1));
            i += 1;
        }
        assert(out@ =~= self.cells().map_values(|row: Seq<u64>| cell(row, k as int)));
        Some(out)
    }

    /// The series as comma-separated values under a header line; a missing
    /// sample is an empty cell. `text` holds the rendered instants and cells,
    /// row by row.
    pub fn to_csv(&self, text: &Vec<(String, Vec<String>)>) -> (out: String)
        requires
            text@.len() == self.cells().len(),
            forall|i: int|
                0 <= i < text@.len() ==> (#[trigger] text@[i]).1@.len() == self.cells()[i].len(),
        ensures
            out@ == csv_header(self.names()) + csv_rows(self.cells(), rendered(text@)),
    {
        let mut out = String::new();
        out.append("t_secs");
        let mut c: usize = 0;
        let ghost names = self.names();
        assert(csv_names(names.take(0)) =~= Seq::<char>::empty());
        while c < self.columns.len()
            invariant
                c <= self.columns@.len(),
                names == self.names(),
                out@ == "t_secs"@ + csv_names(names.take(c as int)),
            decreases self.columns@.len() - c,
        {
            out.append(",");
            out.append(&self.columns[c]);
            proof {
                let next = names.take(c + 1);
                assert(next.drop_last() =~= names.take(c as int));
                assert(next.last() == self.columns@[c as int]@);
                assert(out@ =~= "t_secs"@ + csv_names(next));
            }
            c += 1;
        }
        out.append("\n");
        assert(names.take(names.len() as int) =~= names);
        let ghost header = csv_header(names);
        assert(out@ =~= header);
        let ghost all = rendered(text@);
        let mut i: usize = 0;
        assert(csv_rows(self.cells().take(0), all.take(0)) =~= Seq::<char>::empty());
        assert(out@ =~= header + csv_rows(self.cells().take(0), all.take(0)));
        while i < self.rows.len()
            invariant
                i <= self.rows@.len(),
                text@.len() == self.cells().len(),
                self.cells().len() == self.rows@.len(),
                all == rendered(text@),
                forall|i: int|
                    0 <= i < text@.len() ==> (#[trigger] text@[i]).1@.len() == self.cells()[i].len(),
                out@ == header + csv_rows(self.cells().take(i as int), all.take(i as int)),
            decreases self.rows@.len() - i,
        {
            let ghost before = out@;
            out.append(&text[i].0);
            let ghost cells = self.rows@[i as int].cells@;
            assert(cells == self.cells()[i as int]);
            assert(text@[i as int].1@.len() == cells.len());
            let ghost words = all[i as int].1;
            assert(words =~= text@[i as int].1@.map_values(|w: String| w@));
            let mut j: usize = 0;
            assert(csv_cells(cells.take(0), words.take(0)) =~= Seq::<char>::empty());
            assert(out@ =~= before + text@[i as int].0@ + csv_cells(cells.take(0), words.take(0)));
            while j < self.rows[i].cells.len()
                invariant
                    i < self.rows@.len(),
                    text@.len() == self.rows@.len(),
                    cells == self.rows@[i as int].cells@,
                    words == text@[i as int].1@.map_values(|w: String| w@),
                    text@[i as int].1@.len() == cells.len(),
                    j <= cells.len(),
                    out@ == before + text@[i as int].0@ + csv_cells(
                        cells.take(j as int),
                        words.take(j as int),
                    ),
                decreases cells.len() - j,
            {
                out.append(",");
                if !nan(self.rows[i].cells[j]) {
                    out.append(&text[i].1[j]);
                }
                proof {
                    assert(cells.take(j + 1).drop_last() =~= cells.take(j as int));
                    assert(words.take(j + 1).drop_last() =~= words.take(j as int));
                    assert(out@ =~= before + text@[i as int].0@ + csv_cells(
                        cells.take(j + 1),
                        words.take(j + 1),
                    ));
                }
                j += 1;
            }
            out.append("\n");
            proof {
                assert(cells.take(cells.len() as int) =~= cells);
                assert(words.take(cells.len() as int) =~= words);
                assert(self.cells().take(i + 1).drop_last() =~= self.cells().take(i as int));
                assert(all.take(i + 1).drop_last() =~= all.take(i as int));
                assert(out@ =~= header + csv_rows(self.cells().take(i + 1), all.take(i + 1)));
            }
            i += 1;
        }
        assert(self.cells().take(self.cells().len() as int) =~= self.cells());
        assert(all.take(all.len() as int) =~= all);
        out
    }
}

/// The rendered instants and cells as character sequences.
pub open spec fn rendered(text: Seq<(String, Vec<String>)>) -> Seq<(Seq<char>, Seq<Seq<char>>)> {
    text.map_values(|r: (String, Vec<String>)| (r.0@, r.1@.map_values(|w: String| w@)))
}

/// The column names, each after a comma.
pub open spec fn csv_names(names: Seq<Seq<char>>) -> Seq<char>
    decreases names.len(),
{
    if names.len() == 0 {
        seq![]
    } else {
        csv_names(names.drop_last()) + ","@ + names.last()
    }
}

/// The header line.
pub open spec fn csv_header(names: Seq<Seq<char>>) -> Seq<char> {
    "t_secs"@ + csv_names(names) + "\n"@
}

/// The cells of a row, each after a comma; a missing one is empty.
pub open spec fn csv_cells(cells: Seq<u64>, words: Seq<Seq<char>>) -> Seq<char>
    decreases cells.len(),
{
    if cells.len() == 0 {
        seq![]
    } else {
        csv_cells(cells.drop_last(), words.drop_last()) + ","@ + if is_nan(cells.last()) {
            seq![]
        } else {
            words.last()
        }
    }
}

/// The rows, one line each.
pub open spec fn csv_rows(
    rows: Seq<Seq<u64>>,
    text: Seq<(Seq<char>, Seq<Seq<char>>)>,
) -> Seq<char>
    decreases rows.len(),
{
    if rows.len() == 0 {
        seq![]
    } else {
        csv_rows(rows.drop_last(), text.drop_last()) + (text.last().0 + csv_cells(
            rows.last(),
            text.last().1,
        ) + "\n"@)
    }
}

/// The kind under which a column is judged: the first that is listed for its
/// name, a trend when none is.
pub open spec fn kind_for(kinds: Seq<(Seq<char>, MetricKind)>, column: Seq<char>) -> MetricKind
    decreases kinds.len(),
{
    if kinds.len() == 0 {
        MetricKind::Trend
    } else if kinds[0].0 == column {
        kinds[0].1
    } else {
        kind_for(kinds.skip(1), column)
    }
}

/// The kind under which a column is judged.
pub fn kind_of(kinds: &Vec<(String, MetricKind)>, column: &str) -> (r: MetricKind)
    ensures
        r == kind_for(kinds@.map_values(|k: (String, MetricKind)| (k.0@, k.1)), column@),
{
    let ghost all = kinds@.map_values(|k: (String, MetricKind)| (k.0@, k.1));
    let mut i: usize = 0;
    assert(all.skip(0) =~= all);
    while i < kinds.len()
        invariant
            i <= kinds@.len(),
            all == kinds@.map_values(|k: (String, MetricKind)| (k.0@, k.1)),
            kind_for(all, column@) == kind_for(all.skip(i as int), column@),
        decreases kinds@.len() - i,
    {
        assert(all.skip(i as int).skip(1) =~= all.skip(i + 1));
        assert(all.skip(i as int)[0] == (kinds@[i as int].0@, kinds@[i as int].1));
        if same(&kinds[i].0, column) {
            return kinds[i].1;
        }
        i += 1;
    }
    assert(all.skip(i as int) =~= seq![]);
    MetricKind::Trend
}

// ---------------------------------------------------------------------------
// Analysis of a column
// ---------------------------------------------------------------------------

/// The extent of a column over its samples that are numbers; all zero when
/// there is none.
#[derive(Debug, Clone, Copy)]
pub struct Extent {
    pub n: usize,
    pub first: u64,
    pub last: u64,
    pub min: u64,
    pub max: u64,
}

/// The smallest of some numbers, the first of equal ones.
pub open spec fn smallest(finite: Seq<u64>) -> u64
    decreases finite.len(),
{
    if finite.len() <= 1 {
        finite[0]
    } else {
        let before = smallest(finite.drop_last());
        if place(finite.last()) < place(before) {
            finite.last()
        } else {
            before
        }
    }
}

/// The largest of some numbers, the first of equal ones.
pub open spec fn largest(finite: Seq<u64>) -> u64
    decreases finite.len(),
{
    if finite.len() <= 1 {
        finite[0]
    } else {
        let before = largest(finite.drop_last());
        if place(before) < place(finite.last()) {
            finite.last()
        } else {
            before
        }
    }
}

/// The extent of a column.
pub open spec fn extent_of(values: Seq<u64>) -> Extent {
    let finite = numbers(values);
    if finite.len() == 0 {
        Extent { n: 0, first: 0, last: 0, min: 0, max: 0 }
    } else {
        Extent {
            n: finite.len() as usize,
            first: finite[0],
            last: finite.last(),
            min: smallest(finite),
            max: largest(finite),
        }
    }
}

/// The extent of a column.
pub fn extent(values: &Vec<u64>) -> (r: Extent)
    ensures
        r == extent_of(values@),
        r.n == numbers(values@).len(),
        r.n > 0 ==> {
            let finite = numbers(values@);
            &&& finite.contains(r.min)
            &&& finite.contains(r.max)
            &&& forall|i: int|
                0 <= i < finite.len() ==> place(r.min) <= place(#[trigger] finite[i]) && place(
                    finite[i],
                ) <= place(r.max)
        },
{
    let finite = numbers_of(values);
    let n: usize = finite.len();
    if n == 0 {
        return Extent { n: 0, first: 0, last: 0, min: 0, max: 0 };
    }
    let mut min: u64 = finite[0];
    let mut max: u64 = finite[0];
    let mut i: usize = 1;
    assert(finite@.contains(finite@[0]));
    assert(smallest(finite@.take(1)) == finite@[0] && largest(finite@.take(1)) == finite@[0]);
    while i < n
        invariant
            1 <= i <= n == finite@.len(),
            min == smallest(finite@.take(i as int)),
            max == largest(finite@.take(i as int)),
            finite@.contains(min),
            finite@.contains(max),
            forall|j: int|
                0 <= j < i ==> place(min) <= place(#[trigger] finite@[j]) && place(finite@[j]) <= place(
                    max,
                ),
        decreases n - i,
    {
        let v: u64 = finite[i];
        assert(finite@.contains(finite@[i as int]));
        assert(finite@.take(i + 1).drop_last() =~= finite@.take(i as int));
        assert(finite@.take(i + 1).last() == v);
        if less(v, min) {
            min = v;
        }
        if less(max, v) {
            max = v;
        }
        i += 1;
    }
    assert(finite@.take(n as int) =~= finite@);
    Extent { n, first: finite[0], last: finite[n - 1], min, max }
}

/// The samples that are judged: the numbers of a column without the first
/// `trim` of them, or all of them when that would leave none.
pub open spec fn steady(values: Seq<u64>, trim: nat) -> Seq<u64> {
    let finite = numbers(values);
    if trim < finite.len() {
        finite.skip(trim as int)
    } else {
        finite
    }
}

fn slice(v: &Vec<u64>, from: usize, to: usize) -> (out: Vec<u64>)
    requires
        from <= to <= v@.len(),
    ensures
        out@ == v@.subrange(from as int, to as int),
{
    let mut out: Vec<u64> = Vec::new();
    let mut i: usize = from;
    while i < to
        invariant
            from <= i <= to <= v@.len(),
            out@ == v@.subrange(from as int, i as int),
        decreases to - i,
    {
        out.push(v[i]);
        i += 1;
    }
    out
}

/// The samples of a column that are judged.
pub fn steady_state(values: &Vec<u64>, trim: usize) -> (out: Vec<u64>)
    ensures
        out@ == steady(values@, trim as nat),
{
    let finite = numbers_of(values);
    if trim < finite.len() {
        let out = slice(&finite, trim, finite.len());
        assert(out@ =~= finite@.skip(trim as int));
        out
    } else {
        finite
    }
}

/// The size of the first and of the last third; at least one sample.
pub open spec fn third(n: nat) -> nat {
    if n / 3 > 0 {
        n / 3
    } else {
        1
    }
}

/// The first and the last third of the judged samples.
pub fn thirds(trimmed: &Vec<u64>) -> (r: (Vec<u64>, Vec<u64>))
    requires
        trimmed@.len() > 0,
    ensures
        r.0@ == trimmed@.take(third(trimmed@.len()) as int),
        r.1@ == trimmed@.skip(trimmed@.len() - third(trimmed@.len())),
{
    let n: usize = trimmed.len();
    let k: usize = if n / 3 > 0 { n / 3 } else { 1 };
    let a = slice(trimmed, 0, k);
    let b = slice(trimmed, n - k, n);
    assert(a@ =~= trimmed@.take(k as int));
    assert(b@ =~= trimmed@.skip(n - k));
    (a, b)
}

/// The first and the second half of the judged samples; the second has the
/// odd one.
pub fn halves(trimmed: &Vec<u64>) -> (r: (Vec<u64>, Vec<u64>))
    ensures
        r.0@ == trimmed@.take((trimmed@.len() / 2) as int),
        r.1@ == trimmed@.skip((trimmed@.len() / 2) as int),
{
    let n: usize = trimmed.len();
    let k: usize = n / 2;
    let a = slice(trimmed, 0, k);
    let b = slice(trimmed, k, n);
    assert(a@ =~= trimmed@.take(k as int));
    assert(b@ =~= trimmed@.skip(k as int));
    (a, b)
}

/// What stands in the middle of a column in numeric order.
#[derive(Debug, Clone, Copy, PartialEq, Eq, Structural)]
pub enum Middle {
    /// One sample, which is the median.
    One(u64),
    /// Two samples; their mean is the median.
    Two(u64, u64),
}

/// What stands in the middle of some numbers in numeric order, if there are
/// any.
pub open spec fn middle_of(finite: Seq<u64>) -> Option<Middle> {
    let n = finite.len() as int;
    if n == 0 {
        None
    } else if n % 2 == 1 {
        Some(Middle::One(ordered(finite)[n / 2]))
    } else {
        Some(Middle::Two(ordered(finite)[n / 2 - 1], ordered(finite)[n / 2]))
    }
}

/// What stands in the middle of a column in numeric order, if any sample is a
/// number.
pub fn middle(values: &Vec<u64>) -> (r: Option<Middle>)
    ensures
        r == middle_of(numbers(values@)),
{
    let finite = numbers_of(values);
    let n: usize = finite.len();
    if n == 0 {
        return None;
    }
    let sorted = in_order(&finite);
    proof {
        crate::sample::law_order_is_stable(finite@, 0);
    }
    if n % 2 == 1 {
        Some(Middle::One(sorted[n / 2]))
    } else {
        Some(Middle::Two(sorted[n / 2 - 1], sorted[n / 2]))
    }
}

/// How many of the steps between neighbouring samples rise or stay level.
pub open spec fn rising_steps(finite: Seq<u64>) -> nat
    decreases finite.len(),
{
    if finite.len() < 2 {
        0
    } else {
        rising_steps(finite.drop_last()) + if rises(
            finite[finite.len() - 2],
            finite[finite.len() - 1],
        ) {
            1nat
        } else {
            0nat
        }
    }
}

/// Of the steps between neighbouring numbers of a column: how many rise or
/// stay level, and how many there are.
pub fn monotone_steps(values: &Vec<u64>) -> (r: (usize, usize))
    ensures
        r.0 == rising_steps(numbers(values@)),
        r.1 == if numbers(values@).len() < 2 {
            0
        } else {
            numbers(values@).len() - 1
        },
        r.0 <= r.1,
{
    let finite = numbers_of(values);
    let n: usize = finite.len();
    if n < 2 {
        return (0, 0);
    }
    let mut up: usize = 0;
    let mut i: usize = 1;
    while i < n
        invariant
            1 <= i <= n == finite@.len(),
            up == rising_steps(finite@.take(i as int)),
            up < i,
        decreases n - i,
    {
        proof {
            let next = finite@.take(i + 1);
            assert(next.drop_last() =~= finite@.take(i as int));
            assert(next[next.len() - 2] == finite@[i - 1]);
            assert(next[next.len() - 1] == finite@[i as int]);
        }
        if step_rises(finite[i - 1], finite[i]) {
            up += 1;
        }
        i += 1;
    }
    assert(finite@.take(n as int) =~= finite@);
    (up, n - 1)
}

/// What the caller's arithmetic found about the judged samples.
#[derive(Debug, Clone, Copy)]
pub struct TrendFacts {
    /// The last third's median exceeds the first third's by more than the band.
    pub over_band: bool,
    /// Enough of the steps rise or stay level to call a climb consistent.
    pub monotone: bool,
    /// The second half climbs well faster than the first.
    pub accelerating: bool,
}

/// The verdict on a column. A counter that must be zero drifts as soon as it
/// was positive; otherwise too few judged samples decide nothing, a counter
/// drifts when it accelerates, and a trend when it left the band
/// consistently.
pub open spec fn verdict(
    kind: MetricKind,
    max: u64,
    judged: nat,
    min_samples: nat,
    facts: TrendFacts,
) -> Verdict {
    match kind {
        MetricKind::CounterMustBeZero => if place(max) > 0 {
            Verdict::Drift
        } else {
            Verdict::Bounded
        },
        MetricKind::Counter => if judged < min_samples {
            Verdict::Inconclusive
        } else if facts.accelerating {
            Verdict::Drift
        } else {
            Verdict::Bounded
        },
        MetricKind::Trend => if judged < min_samples {
            Verdict::Inconclusive
        } else if facts.over_band && facts.monotone {
            Verdict::Drift
        } else {
            Verdict::Bounded
        },
    }
}

/// The verdict on a column.
pub fn judge(kind: MetricKind, max: u64, judged: usize, min_samples: usize, facts: TrendFacts) -> (r:
    Verdict)
    ensures
        r == verdict(kind, max, judged as nat, min_samples as nat, facts),
{
    match kind {
        MetricKind::CounterMustBeZero => if less(0, max) {
            Verdict::Drift
        } else {
            Verdict::Bounded
        },
        MetricKind::Counter => if judged < min_samples {
            Verdict::Inconclusive
        } else if facts.accelerating {
            Verdict::Drift
        } else {
            Verdict::Bounded
        },
        MetricKind::Trend => if judged < min_samples {
            Verdict::Inconclusive
        } else if facts.over_band && facts.monotone {
            Verdict::Drift
        } else {
            Verdict::Bounded
        },
    }
}

/// A must-be-zero column is bounded exactly when no sample of it that is a
/// number was positive, whatever else was found.
pub proof fn law_must_be_zero(finite: Seq<u64>, max: u64, judged: nat, min_samples: nat, facts: TrendFacts)
    requires
        finite.contains(max),
        forall|i: int| 0 <= i < finite.len() ==> place(#[trigger] finite[i]) <= place(max),
    ensures
        verdict(MetricKind::CounterMustBeZero, max, judged, min_samples, facts) == Verdict::Bounded
            <==> forall|i: int| 0 <= i < finite.len() ==> place(#[trigger] finite[i]) <= 0,
{
}

/// A trend drifts only when it is both over the band and consistent: a
/// sawtooth around a level, or a single step, does not.
pub proof fn law_trend_needs_both(max: u64, judged: nat, min_samples: nat, facts: TrendFacts)
    ensures
        verdict(MetricKind::Trend, max, judged, min_samples, facts) == Verdict::Drift ==> facts.over_band
            && facts.monotone && judged >= min_samples,
{
}

/// A missing sample changes nothing: all that is found about a column is the
/// same as what is found about its numbers alone. This holds of the extent, of
/// the judged samples, and of the order and the steps of any part of them, and
/// so of the verdict.
pub proof fn law_missing_samples_change_nothing(values: Seq<u64>, trim: nat)
    ensures
        numbers(numbers(values)) == numbers(values),
        extent_of(numbers(values)) == extent_of(values),
        steady(numbers(values), trim) == steady(values, trim),
        middle_of(numbers(numbers(values))) == middle_of(numbers(values)),
        rising_steps(numbers(numbers(values))) == rising_steps(numbers(values)),
        numbers(steady(values, trim)) == steady(values, trim),
{
    lemma_numbers_all(values);
    lemma_numbers_of_numbers(numbers(values));
    let judged = steady(values, trim);
    assert forall|i: int| 0 <= i < judged.len() implies !is_nan(#[trigger] judged[i]) by {
        let finite = numbers(values);
        if trim < finite.len() {
            assert(judged[i] == finite[i + trim]);
        }
    }
    lemma_numbers_of_numbers(judged);
}

proof fn lemma_numbers_all(values: Seq<u64>)
    ensures
        forall|i: int| 0 <= i < numbers(values).len() ==> !is_nan(#[trigger] numbers(values)[i]),
    decreases values.len(),
{
    reveal(Seq::filter);
    if values.len() > 0 {
        lemma_numbers_all(values.drop_last());
    }
}

proof fn lemma_numbers_of_numbers(finite: Seq<u64>)
    requires
        forall|i: int| 0 <= i < finite.len() ==> !is_nan(#[trigger] finite[i]),
    ensures
        numbers(finite) == finite,
    decreases finite.len(),
{
    reveal(Seq::filter);
    if finite.len() > 0 {
        let init = finite.drop_last();
        assert forall|i: int| 0 <= i < init.len() implies !is_nan(#[trigger] init[i]) by {
            assert(init[i] == finite[i]);
        }
        lemma_numbers_of_numbers(init);
        assert(!is_nan(finite[finite.len() - 1]));
        assert(numbers(finite) =~= finite);
    } else {
        assert(numbers(finite) =~= finite);
    }
}

// ---------------------------------------------------------------------------
// Laws
// ---------------------------------------------------------------------------

/// How one more sample changes the extent of a column: one that is missing does
/// not; any other counts, is the last, and is the smallest or the largest exactly
/// where it lies beyond what was.
pub proof fn law_extent_grows(
    before: Vec<u64>,
    after: Vec<u64>,
    v: u64,
    n: bool,
    x: Extent,
    y: Extent,
)
    requires
        call_ensures(extent, (&before,), x),
        call_ensures(extent, (&after,), y),
        call_ensures(nan, (v,), n),
        after@ == before@.push(v),
    ensures
        before@.len() == 0 ==> x == (Extent { n: 0, first: 0, last: 0, min: 0, max: 0 }),
        n ==> y == x,
        !n ==> {
            &&& y.n == x.n + 1
            &&& y.last == v
            &&& y.first == if x.n == 0 {
                v
            } else {
                x.first
            }
            &&& y.min == if x.n == 0 || place(v) < place(x.min) {
                v
            } else {
                x.min
            }
            &&& y.max == if x.n == 0 || place(v) > place(x.max) {
                v
            } else {
                x.max
            }
        },
{
    reveal(Seq::filter);
    assert(after@.drop_last() =~= before@);
    let a = numbers(before@);
    let b = numbers(after@);
    if !n {
        assert(b == a.push(v));
        assert(b.drop_last() =~= a);
        assert(y.n == b.len());
        assert(x.n == a.len());
    } else {
        assert(b == a);
    }
}

/// What is judged of a column: its numbers without the first few, unless that
/// would leave none.
pub proof fn law_steady_state(values: Vec<u64>, trim: usize, finite: Vec<u64>, out: Vec<u64>)
    requires
        call_ensures(steady_state, (&values, trim), out),
        call_ensures(crate::sample::numbers_of, (&values,), finite),
    ensures
        trim >= finite@.len() ==> out@ == finite@,
        trim < finite@.len() ==> out@.len() == finite@.len() - trim && forall|i: int|
            0 <= i < out@.len() ==> #[trigger] out@[i] == finite@[i + trim],
{
}

/// The first third and the last of what is judged, of equal length, one at least;
/// and its two halves, which make up the whole.
pub proof fn law_thirds_and_halves(
    trimmed: Vec<u64>,
    t: (Vec<u64>, Vec<u64>),
    h: (Vec<u64>, Vec<u64>),
)
    requires
        trimmed@.len() > 0,
        call_ensures(thirds, (&trimmed,), t),
        call_ensures(halves, (&trimmed,), h),
    ensures
        t.0@.len() == t.1@.len(),
        trimmed@.len() >= 3 ==> 3 * t.0@.len() <= trimmed@.len() < 3 * t.0@.len() + 3,
        trimmed@.len() < 3 ==> t.0@.len() == 1,
        t.0@.is_prefix_of(trimmed@),
        t.1@.is_suffix_of(trimmed@),
        h.0@ + h.1@ == trimmed@,
        h.0@.len() <= h.1@.len() <= h.0@.len() + 1,
{
    let n = trimmed@.len() as int;
    let k = third(trimmed@.len()) as int;
    assert(t.0@ =~= trimmed@.subrange(0, k));
    assert(t.1@ =~= trimmed@.subrange(n - k, n));
    assert(h.0@ + h.1@ =~= trimmed@);
}

/// The middle of a column: of its sorted numbers the one in the middle, or the
/// two where their count is even; none without numbers.
pub proof fn law_middle(values: Vec<u64>, finite: Vec<u64>, sorted: Vec<u64>, r: Option<Middle>)
    requires
        call_ensures(middle, (&values,), r),
        call_ensures(crate::sample::numbers_of, (&values,), finite),
        call_ensures(in_order, (&finite,), sorted),
    ensures
        r is None <==> finite@.len() == 0,
        r matches Some(Middle::One(m)) ==> exists|k: int|
            #![trigger sorted@[k]]
            0 <= k < sorted@.len() && sorted@.len() == 2 * k + 1 && m == sorted@[k],
        r matches Some(Middle::Two(a, b)) ==> exists|k: int|
            #![trigger sorted@[k]]
            0 < k < sorted@.len() && sorted@.len() == 2 * k && a == sorted@[k - 1] && b == sorted@[k],
{
    crate::sample::law_order_is_stable(finite@, 0);
    let n = finite@.len() as int;
    if n > 0 {
        assert(0 <= n / 2 < n);
        assert(sorted@[n / 2] == ordered(finite@)[n / 2]);
    }
}

/// How the steps of a column are counted: each number but the first makes one,
/// and it rises as it does from the number before.
pub proof fn law_steps_are_counted(
    before: Vec<u64>,
    after: Vec<u64>,
    v: u64,
    n: bool,
    finite: Vec<u64>,
    up: bool,
    x: (usize, usize),
    y: (usize, usize),
)
    requires
        call_ensures(monotone_steps, (&before,), x),
        call_ensures(monotone_steps, (&after,), y),
        call_ensures(nan, (v,), n),
        call_ensures(crate::sample::numbers_of, (&before,), finite),
        finite@.len() > 0 ==> call_ensures(step_rises, (finite@.last(), v), up),
        after@ == before@.push(v),
    ensures
        finite@.len() == 0 ==> x == (0usize, 0usize),
        n ==> y == x,
        !n && finite@.len() == 0 ==> y == (0usize, 0usize),
        !n && finite@.len() > 0 ==> y.1 == x.1 + 1 && y.0 == x.0 + if up {
            1int
        } else {
            0
        },
{
    reveal(Seq::filter);
    assert(after@.drop_last() =~= before@);
    let a = numbers(before@);
    let b = numbers(after@);
    assert(finite@ == a);
    if !n {
        assert(b == a.push(v));
        assert(b.drop_last() =~= a);
        if a.len() > 0 {
            assert(b[b.len() - 2] == a.last());
            assert(b[b.len() - 1] == v);
        }
    } else {
        assert(b == a);
    }
}

/// What a column is judged to be. A counter that must stay zero drifts exactly
/// when it ever was above; any other column is inconclusive with too few samples,
/// and drifts exactly when it accelerates, for a counter, or when it is over its
/// band and monotone, for a trend.
pub proof fn law_judgement(
    kind: MetricKind,
    max: u64,
    judged: usize,
    min_samples: usize,
    facts: TrendFacts,
    r: Verdict,
)
    requires
        call_ensures(judge, (kind, max, judged, min_samples, facts), r),
    ensures
        kind == MetricKind::CounterMustBeZero ==> r != Verdict::Inconclusive && (r == Verdict::Drift
            <==> 0 < max < 0x8000_0000_0000_0000),
        kind != MetricKind::CounterMustBeZero ==> (r == Verdict::Inconclusive <==> judged
            < min_samples),
        kind == MetricKind::Counter ==> (r == Verdict::Drift <==> judged >= min_samples
            && facts.accelerating),
        kind == MetricKind::Trend ==> (r == Verdict::Drift <==> judged >= min_samples
            && facts.over_band && facts.monotone),
{
}

/// A column is judged as the first entry that names it says, and as a trend where
/// none does.
pub proof fn law_kind_of(kinds: Vec<(String, MetricKind)>, column: &str, r: MetricKind, k: int)
    requires
        call_ensures(kind_of, (&kinds, column), r),
    ensures
        (forall|i: int| 0 <= i < kinds@.len() ==> (#[trigger] kinds@[i]).0@ != column@) ==> r
            == MetricKind::Trend,
        0 <= k < kinds@.len() && kinds@[k].0@ == column@ && (forall|i: int|
            0 <= i < k ==> (#[trigger] kinds@[i]).0@ != column@) ==> r == kinds@[k].1,
{
    let list = kinds@.map_values(|k: (String, MetricKind)| (k.0@, k.1));
    assert(r == kind_for(list, column@));
    assert forall|i: int| 0 <= i < list.len() implies (#[trigger] list[i]) == (
        kinds@[i].0@,
        kinds@[i].1,
    ) by {}
    if forall|i: int| 0 <= i < kinds@.len() ==> (#[trigger] kinds@[i]).0@ != column@ {
        assert forall|i: int| 0 <= i < list.len() implies (#[trigger] list[i]).0 != column@ by {
            assert(kinds@[i].0@ != column@);
        }
        lemma_no_kind(list, column@);
    }
    if 0 <= k < kinds@.len() && kinds@[k].0@ == column@ && (forall|i: int|
        0 <= i < k ==> (#[trigger] kinds@[i]).0@ != column@) {
        assert forall|i: int| 0 <= i < k implies (#[trigger] list[i]).0 != column@ by {
            assert(kinds@[i].0@ != column@);
        }
        assert(list[k].0 == column@);
        lemma_first_kind(list, column@, k);
    }
}

proof fn lemma_no_kind(kinds: Seq<(Seq<char>, MetricKind)>, column: Seq<char>)
    requires
        forall|i: int| 0 <= i < kinds.len() ==> (#[trigger] kinds[i]).0 != column,
    ensures
        kind_for(kinds, column) == MetricKind::Trend,
    decreases kinds.len(),
{
    if kinds.len() > 0 {
        let t = kinds.skip(1);
        assert(kinds[0].0 != column);
        assert forall|i: int| 0 <= i < t.len() implies (#[trigger] t[i]).0 != column by {
            assert(kinds[i + 1].0 != column);
        }
        lemma_no_kind(t, column);
    }
}

proof fn lemma_first_kind(kinds: Seq<(Seq<char>, MetricKind)>, column: Seq<char>, k: int)
    requires
        0 <= k < kinds.len(),
        kinds[k].0 == column,
        forall|i: int| 0 <= i < k ==> (#[trigger] kinds[i]).0 != column,
    ensures
        kind_for(kinds, column) == kinds[k].1,
    decreases kinds.len(),
{
    if k > 0 {
        let t = kinds.skip(1);
        assert(kinds[0].0 != column);
        assert forall|i: int| 0 <= i < k - 1 implies (#[trigger] t[i]).0 != column by {
            assert(kinds[i + 1].0 != column);
        }
        assert(t[k - 1] == kinds[k]);
        lemma_first_kind(t, column, k - 1);
    }
}

/// What is read back of a row: under each column the value that was given for it,
/// or a missing one; the rows before are as they were.
pub proof fn law_rows_read_back(
    s: &mut TimeSeries,
    t_secs: u64,
    values: Vec<u64>,
    col: &str,
    x: Option<Vec<u64>>,
    y: Option<Vec<u64>>,
    k: int,
)
    requires
        old(s).aligned(),
        call_ensures(TimeSeries::column_values, (old(s), col), x),
        call_ensures(TimeSeries::push, (s, t_secs, values), ()),
        call_ensures(TimeSeries::column_values, (final(s), col), y),
        0 <= k < old(s).names().len(),
        old(s).names()[k] == col@,
        forall|i: int| 0 <= i < k ==> #[trigger] old(s).names()[i] != col@,
    ensures
        final(s).times() == old(s).times().push(t_secs),
        final(s).names() == old(s).names(),
        x is Some && y is Some && ({
            let v = if k < values@.len() {
                values@[k]
            } else {
                0x7ff8_0000_0000_0000
            };
            y->0@ == x->0@.push(v)
        }),
{
    lemma_column_index(old(s).names(), col@, k);
    let v = if k < values@.len() {
        values@[k]
    } else {
        0x7ff8_0000_0000_0000
    };
    assert(x is Some && y is Some);
    let a = old(s).cells();
    let b = final(s).cells();
    assert(b[a.len() as int] == fitted(values@, old(s).names().len()));
    assert(fitted(values@, old(s).names().len())[k] == v);
    assert(y->0@ =~= x->0@.push(v));
}

/// A column that no name stands for has no values.
pub proof fn law_unknown_column(s: TimeSeries, col: &str, x: Option<Vec<u64>>)
    requires
        call_ensures(TimeSeries::column_values, (&s, col), x),
        forall|i: int| 0 <= i < s.names().len() ==> #[trigger] s.names()[i] != col@,
    ensures
        x is None,
{
    lemma_no_column(s.names(), col@);
}

proof fn lemma_column_index(columns: Seq<Seq<char>>, name: Seq<char>, k: int)
    requires
        0 <= k < columns.len(),
        columns[k] == name,
        forall|i: int| 0 <= i < k ==> #[trigger] columns[i] != name,
    ensures
        column_index(columns, name) == k,
    decreases columns.len(),
{
    if k > 0 {
        let t = columns.skip(1);
        assert(columns[0] != name);
        assert forall|i: int| 0 <= i < k - 1 implies #[trigger] t[i] != name by {
            assert(columns[i + 1] != name);
        }
        assert(t[k - 1] == name);
        lemma_column_index(t, name, k - 1);
    }
}

proof fn lemma_no_column(columns: Seq<Seq<char>>, name: Seq<char>)
    requires
        forall|i: int| 0 <= i < columns.len() ==> #[trigger] columns[i] != name,
    ensures
        column_index(columns, name) == columns.len(),
    decreases columns.len(),
{
    if columns.len() > 0 {
        let t = columns.skip(1);
        assert(columns[0] != name);
        assert forall|i: int| 0 <= i < t.len() implies #[trigger] t[i] != name by {
            assert(columns[i + 1] != name);
        }
        lemma_no_column(t, name);
    }
}

/// How a table is written: a head of `t_secs` and the names, each behind a comma;
/// then a line of each row, of its time and its values, each behind a comma, where
/// a missing value leaves its place empty.
pub proof fn law_table_is_written(
    names: Seq<Seq<char>>,
    name: Seq<char>,
    cells: Seq<u64>,
    words: Seq<Seq<char>>,
    c: u64,
    w: Seq<char>,
    rows: Seq<Seq<u64>>,
    text: Seq<(Seq<char>, Seq<Seq<char>>)>,
    row: Seq<u64>,
    line: (Seq<char>, Seq<Seq<char>>),
    s: TimeSeries,
    given: Vec<(String, Vec<String>)>,
    out: String,
)
    requires
        cells.len() == words.len(),
        rows.len() == text.len(),
        call_ensures(TimeSeries::to_csv, (&s, &given), out),
    ensures
        out@ == "t_secs"@ + csv_names(s.names()) + "\n"@ + csv_rows(s.cells(), rendered(given@)),
        csv_names(Seq::<Seq<char>>::empty()).len() == 0,
        csv_names(names.push(name)) == csv_names(names) + ","@ + name,
        csv_cells(Seq::<u64>::empty(), Seq::<Seq<char>>::empty()).len() == 0,
        is_nan(c) ==> csv_cells(cells.push(c), words.push(w)) == csv_cells(cells, words) + ","@,
        !is_nan(c) ==> csv_cells(cells.push(c), words.push(w)) == csv_cells(cells, words) + ","@ + w,
        csv_rows(Seq::<Seq<u64>>::empty(), Seq::<(Seq<char>, Seq<Seq<char>>)>::empty()).len() == 0,
        csv_rows(rows.push(row), text.push(line)) == csv_rows(rows, text) + line.0 + csv_cells(
            row,
            line.1,
        ) + "\n"@,
{
    assert(names.push(name).drop_last() =~= names);
    assert(cells.push(c).drop_last() =~= cells);
    assert(words.push(w).drop_last() =~= words);
    assert(rows.push(row).drop_last() =~= rows);
    assert(text.push(line).drop_last() =~= text);
    let head = csv_cells(cells, words) + ","@;
    assert(head + Seq::<char>::empty() =~= head);
    let before = csv_rows(rows, text);
    let cols = csv_cells(row, line.1);
    assert(before + (line.0 + cols + "\n"@) =~= before + line.0 + cols + "\n"@);
}

} // verus!
