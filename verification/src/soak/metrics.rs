//! A reader of the metrics text format, for the gauges and counters that the
//! gateway emits. Values are handed out as text and taken back as
//! double-precision bit patterns.

use vstd::prelude::*;
use crate::sample::{is_nan, less, nan, place};
use crate::text::{chars_of, chomp, find, trim_end, lemma_find, lemma_find_first, lines, lines_of, same, space, split, split_at_first, split_on, split_once, string_of, texts, trim, trim_start, trimmed, is_space, skip_spaces, words, words_of, lemma_nothing_to_trim, lemma_one_word};

verus! {

/// A line of the format that names a series, its value still as text.
#[derive(Debug)]
pub struct RawSample {
    pub name: String,
    pub labels: Vec<(String, String)>,
    pub value: String,
}

/// What a line says: the family, the labels and the value.
pub type Reading = (Seq<char>, Seq<(Seq<char>, Seq<char>)>, Seq<char>);

/// Labels as characters.
pub open spec fn label_texts(labels: Seq<(String, String)>) -> Seq<(Seq<char>, Seq<char>)> {
    labels.map_values(|l: (String, String)| (l.0@, l.1@))
}

impl RawSample {
    /// What the line says.
    pub open spec fn reading(self) -> Reading {
        (self.name@, label_texts(self.labels@), self.value@)
    }
}

// ---------------------------------------------------------------------------
// One line
// ---------------------------------------------------------------------------

/// Where the first white space outside of braces stands.
pub open spec fn metric_end(s: Seq<char>, depth: nat) -> Option<nat>
    decreases s.len(),
{
    if s.len() == 0 {
        None
    } else if is_space(s[0]) && depth == 0 {
        Some(0)
    } else {
        let inner = if s[0] == '{' {
            depth + 1
        } else if s[0] == '}' && depth > 0 {
            (depth - 1) as nat
        } else {
            depth
        };
        match metric_end(s.skip(1), inner) {
            Some(k) => Some(k + 1),
            None => None,
        }
    }
}

/// The series and what follows it.
pub open spec fn metric_and_rest(s: Seq<char>) -> Option<(Seq<char>, Seq<char>)> {
    match metric_end(s, 0) {
        Some(k) => if k == 0 {
            None
        } else {
            Some((s.take(k as int), trim_start(s.skip(k as int))))
        },
        None => None,
    }
}

/// Splits a line into the series and what follows it. White space inside of
/// braces belongs to the series.
pub fn split_metric_value(line: &str) -> (r: Option<(String, String)>)
    ensures
        match r {
            Some(p) => metric_and_rest(line@) == Some((p.0@, p.1@)),
            None => metric_and_rest(line@) is None,
        },
{
    let chars = chars_of(line);
    let n: usize = chars.len();
    let mut depth: usize = 0;
    let mut i: usize = 0;
    assert(line@.skip(0) =~= line@);
    while i < n
        invariant
            i <= n == chars@.len(),
            chars@ == line@,
            depth <= i,
            metric_end(line@, 0) == match metric_end(line@.skip(i as int), depth as nat) {
                Some(k) => Some(k + i as nat),
                None => None,
            },
        decreases n - i,
    {
        let c = chars[i];
        assert(line@.skip(i as int)[0] == c);
        assert(line@.skip(i as int).skip(1) =~= line@.skip(i + 1));
        if space(c) && depth == 0 {
            if i == 0 {
                return None;
            }
            let metric = string_of(&chars, 0, i);
            let from = skip_spaces(&chars, i, n);
            let rest = string_of(&chars, from, n);
            assert(metric@ =~= line@.take(i as int));
            assert(chars@.subrange(i as int, n as int) =~= line@.skip(i as int));
            return Some((metric, rest));
        }
        if c == '{' {
            depth += 1;
        } else if c == '}' && depth > 0 {
            depth -= 1;
        }
        i += 1;
    }
    assert(line@.skip(i as int).len() == 0);
    None
}

/// `s` without the characters `c` at either end.
pub open spec fn strip(s: Seq<char>, c: char) -> Seq<char>
    decreases s.len(),
{
    if s.len() > 0 && s[0] == c {
        strip(s.skip(1), c)
    } else if s.len() > 0 && s.last() == c {
        strip(s.drop_last(), c)
    } else {
        s
    }
}

/// The text without the characters `c` at either end.
pub fn stripped(text: &str, c: char) -> (out: String)
    ensures
        out@ == strip(text@, c),
{
    let chars = chars_of(text);
    let mut i: usize = 0;
    let mut j: usize = chars.len();
    assert(chars@.subrange(0, j as int) =~= text@);
    while i < j && chars[i] == c
        invariant
            i <= j == chars@.len(),
            strip(chars@.subrange(i as int, j as int), c) == strip(text@, c),
        decreases j - i,
    {
        assert(chars@.subrange(i as int, j as int).skip(1) =~= chars@.subrange(i + 1, j as int));
        i += 1;
    }
    while i < j && chars[j - 1] == c
        invariant
            i <= j <= chars@.len(),
            i < j ==> chars@[i as int] != c,
            strip(chars@.subrange(i as int, j as int), c) == strip(text@, c),
        decreases j,
    {
        assert(chars@.subrange(i as int, j as int).drop_last() =~= chars@.subrange(
            i as int,
            j - 1,
        ));
        j -= 1;
    }
    string_of(&chars, i, j)
}

/// The label that a piece of the braces holds, if it holds one.
pub open spec fn label(piece: Seq<char>) -> Option<(Seq<char>, Seq<char>)> {
    match split_once(trim(piece), '=') {
        Some((k, v)) => Some((trim(k), strip(trim(v), '"'))),
        None => None,
    }
}

/// The labels that pieces of the braces hold, in order.
pub open spec fn labels_of(pieces: Seq<Seq<char>>) -> Seq<(Seq<char>, Seq<char>)>
    decreases pieces.len(),
{
    if pieces.len() == 0 {
        Seq::empty()
    } else {
        match label(pieces.last()) {
            Some(l) => labels_of(pieces.drop_last()).push(l),
            None => labels_of(pieces.drop_last()),
        }
    }
}

/// The labels between the braces of a series. What is no label is passed over.
pub fn parse_labels(blob: &str) -> (out: Vec<(String, String)>)
    ensures
        label_texts(out@) == labels_of(split(blob@, ',')),
{
    let pieces = split_on(blob, ',');
    let ghost all = split(blob@, ',');
    let mut out: Vec<(String, String)> = Vec::new();
    let mut i: usize = 0;
    assert(label_texts(out@) =~= labels_of(all.take(0)));
    while i < pieces.len()
        invariant
            i <= pieces@.len(),
            all == texts(pieces@),
            label_texts(out@) == labels_of(all.take(i as int)),
        decreases pieces@.len() - i,
    {
        let ghost before = label_texts(out@);
        assert(all.take(i + 1).drop_last() =~= all.take(i as int));
        assert(all.take(i + 1).last() == pieces@[i as int]@);
        let piece = trimmed(&pieces[i]);
        match split_at_first(&piece, '=') {
            Some(kv) => {
                let v = trimmed(&kv.1);
                out.push((trimmed(&kv.0), stripped(&v, '"')));
                assert(label_texts(out@) =~= before.push((trim(kv.0@), strip(trim(kv.1@), '"'))));
            },
            None => {},
        }
        i += 1;
    }
    assert(all.take(i as int) =~= all);
    out
}

/// `s` without the last character if that is `c`.
pub open spec fn without_last(s: Seq<char>, c: char) -> Seq<char> {
    if s.len() > 0 && s.last() == c {
        s.drop_last()
    } else {
        s
    }
}

/// What a series says beside its value: the family and the labels.
pub open spec fn series(metric: Seq<char>) -> (Seq<char>, Seq<(Seq<char>, Seq<char>)>) {
    match split_once(metric, '{') {
        Some((name, blob)) => (name, labels_of(split(without_last(blob, '}'), ','))),
        None => (metric, Seq::empty()),
    }
}

/// The first word, or nothing.
pub open spec fn first_word(s: Seq<char>) -> Seq<char> {
    if words(s).len() > 0 {
        words(s)[0]
    } else {
        Seq::empty()
    }
}

/// What a line says, if it names a series.
pub open spec fn line_reading(line: Seq<char>) -> Option<Reading> {
    let s = trim(line);
    if s.len() == 0 || s[0] == '#' {
        None
    } else {
        match metric_and_rest(s) {
            None => None,
            Some((metric, rest)) => {
                let (name, labels) = series(metric);
                if name.len() == 0 {
                    None
                } else {
                    Some((name, labels, first_word(rest)))
                }
            },
        }
    }
}

fn series_of(metric: &str) -> (r: (String, Vec<(String, String)>))
    ensures
        series(metric@) == (r.0@, label_texts(r.1@)),
{
    match split_at_first(metric, '{') {
        Some(p) => {
            let chars = chars_of(&p.1);
            let n: usize = chars.len();
            let end: usize = if n > 0 && chars[n - 1] == '}' { n - 1 } else { n };
            let blob = string_of(&chars, 0, end);
            assert(blob@ =~= without_last(p.1@, '}'));
            let labels = parse_labels(&blob);
            (p.0, labels)
        },
        None => {
            let labels: Vec<(String, String)> = Vec::new();
            assert(label_texts(labels@) =~= Seq::empty());
            (metric.to_owned(), labels)
        },
    }
}

fn read_line(line: &str) -> (r: Option<RawSample>)
    ensures
        match r {
            Some(s) => line_reading(line@) == Some(s.reading()),
            None => line_reading(line@) is None,
        },
{
    let s = trimmed(line);
    let n: usize = s.as_str().unicode_len();
    if n == 0 || s.as_str().get_char(0) == '#' {
        return None;
    }
    match split_metric_value(&s) {
        None => None,
        Some(p) => {
            let (name, labels) = series_of(&p.0);
            if name.as_str().unicode_len() == 0 {
                return None;
            }
            let tokens = words_of(&p.1);
            let value = if tokens.len() > 0 {
                assert(texts(tokens@)[0] == tokens@[0]@);
                tokens[0].clone()
            } else {
                let empty = String::new();
                assert(empty@ =~= Seq::empty());
                empty
            };
            Some(RawSample { name, labels, value })
        },
    }
}

// ---------------------------------------------------------------------------
// The text
// ---------------------------------------------------------------------------

/// What the lines of a text say, in order.
pub open spec fn readings(all: Seq<Seq<char>>) -> Seq<Reading>
    decreases all.len(),
{
    if all.len() == 0 {
        Seq::empty()
    } else {
        match line_reading(all.last()) {
            Some(r) => readings(all.drop_last()).push(r),
            None => readings(all.drop_last()),
        }
    }
}

/// Samples as what they say.
pub open spec fn said(samples: Seq<RawSample>) -> Seq<Reading> {
    samples.map_values(|s: RawSample| s.reading())
}

/// The series of a text. A line that cannot be read is passed over.
pub fn parse(body: &str) -> (out: Vec<RawSample>)
    ensures
        said(out@) == readings(lines(body@)),
{
    let rows = lines_of(body);
    let ghost all = lines(body@);
    let mut out: Vec<RawSample> = Vec::new();
    let mut i: usize = 0;
    assert(said(out@) =~= readings(all.take(0)));
    while i < rows.len()
        invariant
            i <= rows@.len(),
            all == texts(rows@),
            said(out@) == readings(all.take(i as int)),
        decreases rows@.len() - i,
    {
        let ghost before = said(out@);
        assert(all.take(i + 1).drop_last() =~= all.take(i as int));
        assert(all.take(i + 1).last() == rows@[i as int]@);
        match read_line(&rows[i]) {
            Some(s) => {
                out.push(s);
                assert(said(out@) =~= before.push(s.reading()));
            },
            None => {},
        }
        i += 1;
    }
    assert(all.take(i as int) =~= all);
    out
}

/// A sample: a series with its value as a bit pattern.
#[derive(Debug)]
pub struct Sample {
    pub name: String,
    pub labels: Vec<(String, String)>,
    pub value: u64,
}

/// The samples of a text.
#[derive(Debug)]
pub struct MetricSet {
    pub samples: Vec<Sample>,
}

/// A sample as a family, labels and a value.
pub open spec fn sample_of(s: Sample) -> (Seq<char>, Seq<(Seq<char>, Seq<char>)>, u64) {
    (s.name@, label_texts(s.labels@), s.value)
}

/// Samples as families, labels and values.
pub open spec fn samples_of(samples: Seq<Sample>) -> Seq<(Seq<char>, Seq<(Seq<char>, Seq<char>)>, u64)> {
    samples.map_values(|s: Sample| sample_of(s))
}

/// The readings whose value could be read, in order.
pub open spec fn valued(raw: Seq<Reading>, values: Seq<Option<u64>>) -> Seq<
    (Seq<char>, Seq<(Seq<char>, Seq<char>)>, u64),
>
    decreases raw.len(),
{
    if raw.len() == 0 || values.len() != raw.len() {
        Seq::empty()
    } else {
        match values.last() {
            Some(v) => valued(raw.drop_last(), values.drop_last()).push(
                (raw.last().0, raw.last().1, v),
            ),
            None => valued(raw.drop_last(), values.drop_last()),
        }
    }
}

impl MetricSet {
    /// No samples.
    pub fn empty() -> (r: Self)
        ensures
            r.samples@.len() == 0,
    {
        MetricSet { samples: Vec::new() }
    }

    /// The samples of a text whose values were read, one for one; those
    /// without a value are dropped.
    pub fn collect(raw: Vec<RawSample>, values: &Vec<Option<u64>>) -> (r: Self)
        requires
            values@.len() == raw@.len(),
        ensures
            samples_of(r.samples@) == valued(said(raw@), values@),
    {
        let mut samples: Vec<Sample> = Vec::new();
        let ghost all = said(raw@);
        let mut i: usize = 0;
        assert(samples_of(samples@) =~= valued(all.take(0), values@.take(0)));
        while i < raw.len()
            invariant
                i <= raw@.len(),
                values@.len() == raw@.len(),
                all == said(raw@),
                samples_of(samples@) == valued(all.take(i as int), values@.take(i as int)),
            decreases raw@.len() - i,
        {
            let ghost before = samples_of(samples@);
            assert(all.take(i + 1).drop_last() =~= all.take(i as int));
            assert(values@.take(i + 1).drop_last() =~= values@.take(i as int));
            assert(all.take(i + 1).last() == raw@[i as int].reading());
            match values[i] {
                Some(value) => {
                    let s = Sample {
                        name: raw[i].name.clone(),
                        labels: copy_labels(&raw[i].labels),
                        value,
                    };
                    samples.push(s);
                    assert(samples_of(samples@) =~= before.push(sample_of(s)));
                },
                None => {},
            }
            i += 1;
        }
        assert(all.take(i as int) =~= all);
        assert(values@.take(i as int) =~= values@);
        MetricSet { samples }
    }

    /// The values of a family, in order.
    pub open spec fn family(&self, name: Seq<char>) -> Seq<u64> {
        self.samples@.filter(|s: Sample| s.name@ == name).map_values(|s: Sample| s.value)
    }

    /// The values of a family, which a caller adds up; none when the family is
    /// absent, which is not the same as a sum of zero.
    pub fn values(&self, name: &str) -> (r: Option<Vec<u64>>)
        ensures
            match r {
                Some(v) => v@ == self.family(name@) && v@.len() > 0,
                None => self.family(name@).len() == 0,
            },
    {
        let mut out: Vec<u64> = Vec::new();
        let mut i: usize = 0;
        let ghost keep = |s: Sample| s.name@ == name@;
        let ghost value = |s: Sample| s.value;
        proof {
            reveal(Seq::filter);
        }
        assert(out@ =~= self.samples@.take(0).filter(keep).map_values(value));
        while i < self.samples.len()
            invariant
                i <= self.samples@.len(),
                keep == (|s: Sample| s.name@ == name@),
                value == (|s: Sample| s.value),
                out@ == self.samples@.take(i as int).filter(keep).map_values(value),
            decreases self.samples@.len() - i,
        {
            reveal(Seq::filter);
            let ghost before = self.samples@.take(i as int).filter(keep);
            assert(self.samples@.take(i + 1).drop_last() =~= self.samples@.take(i as int));
            if same(&self.samples[i].name, name) {
                out.push(self.samples[i].value);
                assert(out@ =~= before.push(self.samples@[i as int]).map_values(value));
            }
            i += 1;
        }
        assert(self.samples@.take(i as int) =~= self.samples@);
        if out.len() == 0 {
            None
        } else {
            Some(out)
        }
    }

    /// The largest value of a family that is a number, or the first value if
    /// none is; nothing when the family is absent.
    pub fn max(&self, name: &str) -> (r: Option<u64>)
        ensures
            match r {
                None => self.family(name@).len() == 0,
                Some(m) => {
                    &&& self.family(name@).contains(m)
                    &&& is_nan(m) ==> m == self.family(name@)[0]
                    &&& forall|i: int|
                        0 <= i < self.family(name@).len() && !is_nan(
                            #[trigger] self.family(name@)[i],
                        ) ==> !is_nan(m) && place(self.family(name@)[i]) <= place(m)
                },
            },
    {
        match self.values(name) {
            None => None,
            Some(v) => {
                let mut m: u64 = v[0];
                let mut k: usize = 1;
                assert(v@[0] == m);
                while k < v.len()
                    invariant
                        1 <= k <= v@.len(),
                        v@.contains(m),
                        is_nan(m) ==> m == v@[0],
                        forall|i: int|
                            0 <= i < k && !is_nan(#[trigger] v@[i]) ==> !is_nan(m) && place(v@[i])
                                <= place(m),
                    decreases v@.len() - k,
                {
                    if !nan(v[k]) && (nan(m) || less(m, v[k])) {
                        m = v[k];
                        assert(v@[k as int] == m);
                    }
                    k += 1;
                }
                Some(m)
            },
        }
    }
}

fn copy_labels(labels: &Vec<(String, String)>) -> (out: Vec<(String, String)>)
    ensures
        label_texts(out@) == label_texts(labels@),
{
    let mut out: Vec<(String, String)> = Vec::new();
    let mut i: usize = 0;
    while i < labels.len()
        invariant
            i <= labels@.len(),
            out@.len() == i,
            forall|j: int|
                0 <= j < i ==> (#[trigger] out@[j]).0@ == labels@[j].0@ && out@[j].1@
                    == labels@[j].1@,
        decreases labels@.len() - i,
    {
        out.push((labels[i].0.clone(), labels[i].1.clone()));
        i += 1;
    }
    assert(label_texts(out@) =~= label_texts(labels@));
    out
}

/// Texts are read line by line: two texts with a line break between them say
/// what the first says and then what the second says. Blank lines, comments and
/// lines that cannot be read neither say anything nor change what another line
/// says. The same holds of the samples, once the values are read.
pub proof fn law_texts_join(
    a: Seq<char>,
    b: Seq<char>,
    a_values: Seq<Option<u64>>,
    b_values: Seq<Option<u64>>,
)
    ensures
        readings(lines(a + seq!['\n'] + b)) == readings(lines(a)) + readings(lines(b)),
        a_values.len() == readings(lines(a)).len() && b_values.len() == readings(lines(b)).len()
            ==> valued(readings(lines(a + seq!['\n'] + b)), a_values + b_values) == valued(
            readings(lines(a)),
            a_values,
        ) + valued(readings(lines(b)), b_values),
{
    lemma_readings_join(a, b);
    let x = readings(lines(a));
    let y = readings(lines(b));
    if a_values.len() == x.len() && b_values.len() == y.len() {
        lemma_valued_add(x, y, a_values, b_values);
    }
}

proof fn lemma_readings_join(a: Seq<char>, b: Seq<char>)
    ensures
        readings(lines(a + seq!['\n'] + b)) == readings(lines(a)) + readings(lines(b)),
    decreases a.len(),
{
    let s = a + seq!['\n'] + b;
    lemma_find(a, '\n');
    lemma_find(s, '\n');
    let k = find(a, '\n') as int;
    let j = find(s, '\n') as int;
    assert(s[a.len() as int] == '\n');
    if j < k {
        assert(s[j] == a[j]);
    }
    if k < j {
        assert(k < a.len() ==> s[k] == a[k]);
    }
    assert(j == k);
    let head = chomp(a.take(k));
    assert(s.take(k) =~= a.take(k));
    if k < a.len() {
        let rest = a.skip(k + 1);
        lemma_readings_join(rest, b);
        assert(s.skip(k + 1) =~= rest + seq!['\n'] + b);
        lemma_readings_add(seq![head], lines(rest + seq!['\n'] + b));
        lemma_readings_add(seq![head], lines(rest));
        assert(readings(seq![head]) + (readings(lines(rest)) + readings(lines(b))) =~= readings(
            seq![head],
        ) + readings(lines(rest)) + readings(lines(b)));
    } else {
        assert(a.take(k) =~= a);
        assert(s.skip(k + 1) =~= b);
        lemma_readings_add(seq![head], lines(b));
        lemma_chomp_reads_same(a);
        lemma_one_reading(head);
        if a.len() == 0 {
            assert(trim(a) =~= a);
            assert(readings(seq![head]) =~= Seq::empty());
            assert(readings(lines(a)) =~= Seq::empty());
        } else {
            lemma_one_reading(a);
        }
    }
}

proof fn lemma_one_reading(line: Seq<char>)
    ensures
        readings(seq![line]) == match line_reading(line) {
            Some(r) => seq![r],
            None => Seq::empty(),
        },
{
    let one = seq![line];
    assert(one.drop_last() =~= Seq::empty());
    assert(one.last() == line);
    assert(readings(one.drop_last()) =~= Seq::empty());
    assert(readings(one) =~= match line_reading(line) {
        Some(r) => seq![r],
        None => Seq::empty(),
    });
}

proof fn lemma_readings_add(x: Seq<Seq<char>>, y: Seq<Seq<char>>)
    ensures
        readings(x + y) == readings(x) + readings(y),
    decreases y.len(),
{
    if y.len() == 0 {
        assert(x + y =~= x);
        assert(readings(x) + readings(y) =~= readings(x));
    } else {
        lemma_readings_add(x, y.drop_last());
        assert((x + y).drop_last() =~= x + y.drop_last());
        assert((x + y).last() == y.last());
        assert(readings(x + y) =~= readings(x) + readings(y));
    }
}

proof fn lemma_valued_add(
    x: Seq<Reading>,
    y: Seq<Reading>,
    xv: Seq<Option<u64>>,
    yv: Seq<Option<u64>>,
)
    requires
        x.len() == xv.len(),
        y.len() == yv.len(),
    ensures
        valued(x + y, xv + yv) == valued(x, xv) + valued(y, yv),
    decreases y.len(),
{
    if y.len() == 0 {
        assert(x + y =~= x);
        assert(xv + yv =~= xv);
        assert(valued(x, xv) + valued(y, yv) =~= valued(x, xv));
    } else {
        lemma_valued_add(x, y.drop_last(), xv, yv.drop_last());
        assert((x + y).drop_last() =~= x + y.drop_last());
        assert((xv + yv).drop_last() =~= xv + yv.drop_last());
        assert((x + y).last() == y.last());
        assert((xv + yv).last() == yv.last());
        assert(valued(x + y, xv + yv) =~= valued(x, xv) + valued(y, yv));
    }
}

/// A carriage return at the end of a line changes nothing of what it says.
proof fn lemma_chomp_reads_same(s: Seq<char>)
    ensures
        line_reading(chomp(s)) == line_reading(s),
{
    if s.len() > 0 && s.last() == '\r' {
        lemma_trim_space_after(s.drop_last(), '\r');
        assert(s.drop_last().push('\r') =~= s);
    }
}

proof fn lemma_trim_space_after(s: Seq<char>, c: char)
    requires
        is_space(c),
    ensures
        trim(s.push(c)) == trim(s),
{
    lemma_trim_start_push(s, c);
    let t = trim_start(s);
    if t.len() > 0 {
        assert(t.push(c).drop_last() =~= t);
        assert(t.push(c).last() == c);
    }
}

proof fn lemma_trim_start_push(s: Seq<char>, c: char)
    requires
        is_space(c),
    ensures
        trim_start(s.push(c)) == if trim_start(s).len() > 0 {
            trim_start(s).push(c)
        } else {
            Seq::empty()
        },
    decreases s.len(),
{
    let p = s.push(c);
    if s.len() == 0 {
        assert(p[0] == c);
        assert(p.skip(1) =~= Seq::empty());
        assert(trim_start(p.skip(1)) =~= Seq::empty());
    } else if is_space(s[0]) {
        assert(p[0] == s[0]);
        assert(p.skip(1) =~= s.skip(1).push(c));
        lemma_trim_start_push(s.skip(1), c);
    } else {
        assert(p[0] == s[0]);
    }
}

// ---------------------------------------------------------------------------
// Laws of the calls
// ---------------------------------------------------------------------------

/// Whether a text holds white space.
pub open spec fn has_space(s: Seq<char>) -> bool {
    exists|i: int| 0 <= i < s.len() && is_space(#[trigger] s[i])
}

/// What a line with labels says: the name before the brace, the labels between
/// the braces, where white space ends nothing, and the value behind them.
pub proof fn law_labelled_line(
    text: &str,
    name: Seq<char>,
    blob: &str,
    value: Seq<char>,
    labels: Vec<(String, String)>,
    out: Vec<RawSample>,
)
    requires
        text@ == name + (seq!['{'] + (blob@ + (seq!['}'] + (seq![' '] + value)))),
        name.len() > 0,
        name[0] != '#',
        !has_space(name),
        !name.contains('{'),
        !name.contains('}'),
        !blob@.contains('{'),
        !blob@.contains('}'),
        !blob@.contains('\n'),
        value.len() > 0,
        !has_space(value),
        call_ensures(parse_labels, (blob,), labels),
        call_ensures(parse, (text,), out),
    ensures
        out@.len() == 1,
        out@[0].name@ == name,
        out@[0].value@ == value,
        label_texts(out@[0].labels@) == label_texts(labels@),
{
    let s = text@;
    let tail = seq![' '] + value;
    let closed = seq!['}'] + tail;
    let inner = blob@ + closed;
    let open = seq!['{'] + inner;
    lemma_one_line(name, blob@, value, s);
    lemma_end_past(name, open, 0);
    assert(open[0] == '{' && open.skip(1) =~= inner);
    lemma_end_past(blob@, closed, 1);
    assert(closed[0] == '}' && closed.skip(1) =~= tail);
    assert(tail[0] == ' ');
    assert(!is_space('{') && !is_space('}') && is_space(' '));
    assert(metric_end(tail, 0) == Some(0nat));
    assert(metric_end(closed, 1) == Some(1nat));
    assert(metric_end(inner, 1) == Some(blob@.len() + 1));
    assert(metric_end(open, 0) == Some(blob@.len() + 2));
    let k = name.len() + blob@.len() + 2;
    assert(metric_end(s, 0) == Some(k));
    let metric = name + seq!['{'] + (blob@ + seq!['}']);
    assert(s.take(k as int) =~= metric);
    assert(s.skip(k as int) =~= tail);
    assert(tail.skip(1) =~= value);
    assert(!is_space(value[0]));
    assert(trim_start(tail) == value) by {
        assert(trim_start(value) == value);
    }
    lemma_find_first(name, '{', blob@ + seq!['}']);
    assert(metric.take(name.len() as int) =~= name);
    assert(metric.skip(name.len() as int + 1) =~= blob@ + seq!['}']);
    assert((blob@ + seq!['}']).drop_last() =~= blob@);
    lemma_value_word(value);
    assert(line_reading(s) == Some((name, label_texts(labels@), value)));
    lemma_one_reading(s);
    assert(said(out@) == seq![(name, label_texts(labels@), value)]);
    assert(said(out@)[0] == out@[0].reading());
}

/// What a line without labels says: the name, no labels, and the value.
pub proof fn law_plain_line(text: &str, name: Seq<char>, value: Seq<char>, out: Vec<RawSample>)
    requires
        text@ == name + (seq![' '] + value),
        name.len() > 0,
        name[0] != '#',
        !has_space(name),
        !name.contains('{'),
        !name.contains('}'),
        value.len() > 0,
        !has_space(value),
        call_ensures(parse, (text,), out),
    ensures
        out@.len() == 1,
        out@[0].name@ == name,
        out@[0].value@ == value,
        out@[0].labels@.len() == 0,
{
    let s = text@;
    let tail = seq![' '] + value;
    lemma_no_break(s, name, value);
    lemma_end_past(name, tail, 0);
    assert(tail[0] == ' ');
    assert(is_space(' '));
    assert(metric_end(tail, 0) == Some(0nat));
    let k = name.len();
    assert(metric_end(s, 0) == Some(k));
    assert(s.take(k as int) =~= name);
    assert(s.skip(k as int) =~= tail);
    assert(tail.skip(1) =~= value);
    assert(!is_space(value[0]));
    assert(trim_start(tail) == value) by {
        assert(trim_start(value) == value);
    }
    lemma_find(name, '{');
    if find(name, '{') < name.len() {
        assert(name.contains('{'));
    }
    lemma_value_word(value);
    let none = Seq::<(Seq<char>, Seq<char>)>::empty();
    assert(line_reading(s) == Some((name, none, value)));
    lemma_one_reading(s);
    assert(said(out@) == seq![(name, none, value)]);
    assert(said(out@).len() == out@.len());
    assert(said(out@)[0] == out@[0].reading());
    assert(label_texts(out@[0].labels@).len() == 0);
}

/// A comment says nothing.
pub proof fn law_comments_say_nothing(text: &str, rest: Seq<char>, out: Vec<RawSample>)
    requires
        text@ == seq!['#'] + rest,
        !rest.contains('\n'),
        call_ensures(parse, (text,), out),
    ensures
        out@.len() == 0,
{
    let s = text@;
    assert(s[0] == '#');
    assert(!s.contains('\n')) by {
        if s.contains('\n') {
            let i = choose|i: int| 0 <= i < s.len() && s[i] == '\n';
            assert(rest[i - 1] == '\n');
        }
    }
    lemma_find(s, '\n');
    assert(lines(s) =~= seq![s]);
    lemma_one_reading(s);
    assert(!is_space('#'));
    lemma_trim_end_keeps(s);
    assert(trim_start(s) == s);
    assert(line_reading(s) is None);
    assert(said(out@).len() == out@.len());
}

proof fn lemma_trim_end_keeps(s: Seq<char>)
    requires
        s.len() > 0,
        !is_space(s[0]),
    ensures
        trim_end(s).len() > 0,
        trim_end(s)[0] == s[0],
    decreases s.len(),
{
    if is_space(s.last()) {
        lemma_trim_end_keeps(s.drop_last());
    }
}

proof fn lemma_value_word(value: Seq<char>)
    requires
        value.len() > 0,
        !has_space(value),
    ensures
        first_word(value) == value,
{
    lemma_one_word(value);
}

proof fn lemma_no_break(s: Seq<char>, name: Seq<char>, value: Seq<char>)
    requires
        s == name + (seq![' '] + value),
        name.len() > 0,
        !has_space(name),
        value.len() > 0,
        !has_space(value),
    ensures
        lines(s) == seq![s],
        trim(s) == s,
{
    assert(is_space('\n'));
    lemma_find(s, '\n');
    let k = find(s, '\n') as int;
    if k < s.len() {
        if k < name.len() {
            assert(is_space(name[k]));
        } else if k > name.len() {
            assert(s[k] == value[k - name.len() - 1]);
            assert(is_space(value[k - name.len() - 1]));
        }
    }
    assert(lines(s) =~= seq![s]);
    assert(s[0] == name[0]);
    assert(s.last() == value.last());
    assert(!is_space(name[0]));
    assert(!is_space(value[value.len() - 1]));
    lemma_nothing_to_trim(s);
}

proof fn lemma_one_line(name: Seq<char>, blob: Seq<char>, value: Seq<char>, s: Seq<char>)
    requires
        s == name + (seq!['{'] + (blob + (seq!['}'] + (seq![' '] + value)))),
        name.len() > 0,
        !has_space(name),
        !blob.contains('\n'),
        value.len() > 0,
        !has_space(value),
    ensures
        lines(s) == seq![s],
        trim(s) == s,
{
    assert(is_space('\n'));
    lemma_find(s, '\n');
    let k = find(s, '\n') as int;
    let at = name.len() + 1 + blob.len();
    if k < s.len() {
        if k < name.len() {
            assert(is_space(name[k]));
        } else if name.len() < k < at {
            assert(s[k] == blob[k - name.len() - 1]);
            assert(blob.contains('\n'));
        } else if k >= at + 2 {
            assert(s[k] == value[k - at - 2]);
            assert(is_space(value[k - at - 2]));
        }
    }
    assert(lines(s) =~= seq![s]);
    assert(s[0] == name[0]);
    assert(s.last() == value.last());
    assert(!is_space(name[0]));
    assert(!is_space(value[value.len() - 1]));
    lemma_nothing_to_trim(s);
}

/// A part without braces does not end the metric, unless it has white space
/// outside of braces.
proof fn lemma_end_past(a: Seq<char>, rest: Seq<char>, depth: nat)
    requires
        !a.contains('{'),
        !a.contains('}'),
        depth > 0 || !has_space(a),
    ensures
        metric_end(a + rest, depth) == match metric_end(rest, depth) {
            Some(k) => Some(k + a.len()),
            None => None,
        },
    decreases a.len(),
{
    if a.len() == 0 {
        assert(a + rest =~= rest);
    } else {
        let t = a.skip(1);
        assert(a.contains(a[0]));
        if depth == 0 {
            assert(!is_space(a[0]));
        }
        assert(!t.contains('{') && !t.contains('}')) by {
            if t.contains('{') {
                let i = choose|i: int| 0 <= i < t.len() && t[i] == '{';
                assert(a[i + 1] == '{');
            }
            if t.contains('}') {
                let i = choose|i: int| 0 <= i < t.len() && t[i] == '}';
                assert(a[i + 1] == '}');
            }
        }
        if depth == 0 && has_space(t) {
            let i = choose|i: int| 0 <= i < t.len() && is_space(#[trigger] t[i]);
            assert(is_space(a[i + 1]));
        }
        lemma_end_past(t, rest, depth);
        assert((a + rest).skip(1) =~= t + rest);
        assert((a + rest)[0] == a[0]);
    }
}

/// What the labels of a line are: pieces between commas, each a key, an equals
/// sign and a value in quotes, which are left out; in order.
pub proof fn law_labels(
    key: Seq<char>,
    value: Seq<char>,
    one: &str,
    rest: &str,
    whole: &str,
    x: Vec<(String, String)>,
    y: Vec<(String, String)>,
    z: Vec<(String, String)>,
)
    requires
        one@ == key + seq!['='] + (seq!['"'] + value + seq!['"']),
        key.len() > 0,
        !has_space(key),
        !key.contains('='),
        !key.contains(','),
        !value.contains('"'),
        !value.contains(','),
        whole@ == one@ + seq![','] + rest@,
        call_ensures(parse_labels, (one,), x),
        call_ensures(parse_labels, (rest,), y),
        call_ensures(parse_labels, (whole,), z),
    ensures
        x@.len() == 1,
        x@[0].0@ == key,
        x@[0].1@ == value,
        label_texts(z@) == label_texts(x@) + label_texts(y@),
{
    let s = one@;
    let quoted = seq!['"'] + value + seq!['"'];
    assert(!s.contains(',')) by {
        if s.contains(',') {
            let i = choose|i: int| 0 <= i < s.len() && s[i] == ',';
            if i < key.len() {
                assert(key[i] == ',');
            } else if key.len() + 1 < i < s.len() - 1 {
                assert(value[i - key.len() - 2] == ',');
            }
        }
    }
    lemma_find(s, ',');
    if find(s, ',') < s.len() {
        assert(s.contains(','));
    }
    assert(split(s, ',') =~= seq![s]);
    lemma_find_first(s, ',', rest@);
    assert(whole@.take(s.len() as int) =~= s);
    assert(whole@.skip(s.len() as int + 1) =~= rest@);
    assert(split(whole@, ',') =~= seq![s] + split(rest@, ','));
    lemma_labels_add(seq![s], split(rest@, ','));
    assert(s[0] == key[0]);
    assert(!is_space(key[0]));
    assert(s.last() == '"');
    assert(!is_space('"'));
    lemma_nothing_to_trim(s);
    lemma_find_first(key, '=', quoted);
    assert(s.take(key.len() as int) =~= key);
    assert(s.skip(key.len() as int + 1) =~= quoted);
    assert(!is_space(key[key.len() - 1]));
    lemma_nothing_to_trim(key);
    assert(quoted[0] == '"' && quoted.last() == '"');
    lemma_nothing_to_trim(quoted);
    lemma_strip_quotes(value);
    assert(label(s) == Some((key, value)));
    let list = seq![s];
    assert(list.drop_last() =~= Seq::empty());
    assert(labels_of(list.drop_last()) =~= Seq::empty());
    assert(labels_of(list) =~= seq![(key, value)]);
    assert(label_texts(x@)[0] == (x@[0].0@, x@[0].1@));
}

proof fn lemma_strip_quotes(value: Seq<char>)
    requires
        !value.contains('"'),
    ensures
        strip(seq!['"'] + value + seq!['"'], '"') == value,
{
    let s = seq!['"'] + value + seq!['"'];
    assert(s[0] == '"');
    let t = s.skip(1);
    assert(t =~= value + seq!['"']);
    if value.len() == 0 {
        assert(t[0] == '"');
        assert(t.skip(1) =~= value);
        assert(strip(t.skip(1), '"') == value);
    } else {
        assert(value.contains(value[0]) && value.contains(value.last()));
        assert(t[0] == value[0]);
        assert(t.last() == '"');
        assert(t.drop_last() =~= value);
        assert(strip(value, '"') == value);
    }
    assert(strip(t, '"') == value);
}

proof fn lemma_labels_add(x: Seq<Seq<char>>, y: Seq<Seq<char>>)
    ensures
        labels_of(x + y) == labels_of(x) + labels_of(y),
    decreases y.len(),
{
    if y.len() == 0 {
        assert(x + y =~= x);
        assert(labels_of(x) + labels_of(y) =~= labels_of(x));
    } else {
        lemma_labels_add(x, y.drop_last());
        assert((x + y).drop_last() =~= x + y.drop_last());
        assert((x + y).last() == y.last());
        assert(labels_of(x + y) =~= labels_of(x) + labels_of(y));
    }
}

/// Two texts with a line break between them are read one after the other.
pub proof fn law_lines_are_read_in_order(
    a: &str,
    b: &str,
    whole: &str,
    x: Vec<RawSample>,
    y: Vec<RawSample>,
    z: Vec<RawSample>,
)
    requires
        whole@ == a@ + seq!['\n'] + b@,
        call_ensures(parse, (a,), x),
        call_ensures(parse, (b,), y),
        call_ensures(parse, (whole,), z),
    ensures
        said(z@) == said(x@) + said(y@),
{
    lemma_readings_join(a@, b@);
}

/// What a family of samples is: one more sample belongs to it, at the end,
/// exactly when it has the family's name.
pub proof fn law_family_grows(
    before: MetricSet,
    after: MetricSet,
    s: Sample,
    name: &str,
    x: Option<Vec<u64>>,
    y: Option<Vec<u64>>,
)
    requires
        after.samples@ == before.samples@.push(s),
        call_ensures(MetricSet::values, (&before, name), x),
        call_ensures(MetricSet::values, (&after, name), y),
    ensures
        before.samples@.len() == 0 ==> x is None,
        s.name@ != name@ ==> (x is Some <==> y is Some) && (x is Some ==> x->0@ == y->0@),
        s.name@ == name@ ==> y is Some && match x {
            Some(v) => y->0@ == v@.push(s.value),
            None => y->0@ == seq![s.value],
        },
{
    reveal(Seq::filter);
    assert(after.samples@.drop_last() =~= before.samples@);
    let a = before.family(name@);
    let b = after.family(name@);
    if s.name@ == name@ {
        assert(b =~= a.push(s.value));
        if a.len() == 0 {
            assert(b =~= seq![s.value]);
        }
    } else {
        assert(b =~= a);
    }
}

/// Which readings become samples: one more reading becomes one, at the end,
/// exactly when its value is a number.
pub proof fn law_numbers_become_samples(
    before: Vec<RawSample>,
    after: Vec<RawSample>,
    s: RawSample,
    a: Vec<Option<u64>>,
    b: Vec<Option<u64>>,
    v: Option<u64>,
    x: MetricSet,
    y: MetricSet,
)
    requires
        after@ == before@.push(s),
        b@ == a@.push(v),
        a@.len() == before@.len(),
        call_ensures(MetricSet::collect, (before, &a), x),
        call_ensures(MetricSet::collect, (after, &b), y),
    ensures
        before@.len() == 0 ==> x.samples@.len() == 0,
        v is None ==> samples_of(y.samples@) == samples_of(x.samples@),
        v matches Some(n) ==> {
            &&& y.samples@.len() == x.samples@.len() + 1
            &&& samples_of(y.samples@).drop_last() == samples_of(x.samples@)
            &&& y.samples@.last().name@ == s.name@
            &&& label_texts(y.samples@.last().labels@) == label_texts(s.labels@)
            &&& y.samples@.last().value == n
        },
{
    assert(said(after@).drop_last() =~= said(before@));
    assert(b@.drop_last() =~= a@);
    assert(said(after@).last() == s.reading());
    assert(samples_of(x.samples@).len() == x.samples@.len());
    assert(samples_of(y.samples@).len() == y.samples@.len());
    if v is Some {
        let m = samples_of(y.samples@);
        assert(m == samples_of(x.samples@).push((s.name@, label_texts(s.labels@), v->0)));
        assert(m.drop_last() =~= samples_of(x.samples@));
        assert(m[m.len() - 1] == sample_of(y.samples@.last()));
    }
}

/// The largest of a family: there is one exactly when the family has samples, it
/// is one of them, and none that is a number lies beyond it.
pub proof fn law_family_maximum(
    set: MetricSet,
    name: &str,
    r: Option<u64>,
    values: Option<Vec<u64>>,
    i: int,
    n: bool,
    beyond: bool,
)
    requires
        call_ensures(MetricSet::max, (&set, name), r),
        call_ensures(MetricSet::values, (&set, name), values),
        values is Some ==> 0 <= i < values->0@.len(),
        values is Some ==> call_ensures(nan, (values->0@[i],), n),
        values is Some && r is Some ==> call_ensures(less, (r->0, values->0@[i]), beyond),
    ensures
        r is Some <==> values is Some,
        r is Some ==> values->0@.contains(r->0),
        r is Some && !n ==> !beyond,
{
}

} // verus!
