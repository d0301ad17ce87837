//! The sampling loop's data: the scrape request and response, the columns of
//! the series and one row of it.

use vstd::prelude::*;
use crate::sample::MISSING;
use crate::text::{chars_of, lines, lines_of, parse_unsigned, string_of, texts, unsigned_value, words, words_of};

verus! {

/// The columns that every series starts with.
pub const BASE_COLUMNS: [&'static str; 4] = ["rss_kb", "vmhwm_kb", "fds", "threads"];

/// The request for a path: one exchange on a connection of its own.
pub fn get_request(path: &str) -> (out: String)
    ensures
        out@ == "GET "@ + path@ + " HTTP/1.1\r\nHost: localhost\r\nConnection: close\r\n\r\n"@,
{
    let mut out: String = "GET ".to_owned();
    out.append(path);
    out.append(" HTTP/1.1\r\nHost: localhost\r\nConnection: close\r\n\r\n");
    out
}

/// Whether a blank line starts at `i`.
pub open spec fn blank_at(s: Seq<char>, i: int) -> bool {
    &&& 0 <= i
    &&& i + 4 <= s.len()
    &&& s[i] == '\r'
    &&& s[i + 1] == '\n'
    &&& s[i + 2] == '\r'
    &&& s[i + 3] == '\n'
}

/// Where the first blank line at or after `i` starts.
pub open spec fn blank_from(s: Seq<char>, i: nat) -> Option<nat>
    decreases s.len() - i,
{
    if i + 4 > s.len() {
        None
    } else if blank_at(s, i as int) {
        Some(i)
    } else {
        blank_from(s, i + 1)
    }
}

/// The head and the body of a response; one without a blank line is all head.
pub open spec fn head_and_body(s: Seq<char>) -> (Seq<char>, Seq<char>) {
    match blank_from(s, 0) {
        Some(k) => (s.take(k as int), s.skip(k as int + 4)),
        None => (s, Seq::empty()),
    }
}

/// The status of a response head: the second word of its first line, or zero
/// when that is no status.
pub open spec fn status_of(head: Seq<char>) -> nat {
    let rows = lines(head);
    if rows.len() > 0 && words(rows[0]).len() > 1 {
        match unsigned_value(words(rows[0])[1], u16::MAX as nat) {
            Some(n) => n,
            None => 0,
        }
    } else {
        0
    }
}

fn read_status(head: &str) -> (status: u16)
    ensures
        status == status_of(head@),
{
    let rows = lines_of(head);
    if rows.len() == 0 {
        return 0;
    }
    assert(texts(rows@)[0] == rows@[0]@);
    let tokens = words_of(&rows[0]);
    if tokens.len() < 2 {
        return 0;
    }
    assert(texts(tokens@)[1] == tokens@[1]@);
    match parse_unsigned(&tokens[1], u16::MAX as u64) {
        Some(n) => n as u16,
        None => 0,
    }
}

/// The status and the body of a response.
pub fn parse_response(text: &str) -> (r: (u16, String))
    ensures
        r.0 == status_of(head_and_body(text@).0),
        r.1@ == head_and_body(text@).1,
{
    let chars = chars_of(text);
    let n: usize = chars.len();
    let mut i: usize = 0;
    while i < n
        invariant
            i <= n == chars@.len(),
            chars@ == text@,
            blank_from(text@, 0) == blank_from(text@, i as nat),
        decreases n - i,
    {
        if n - i >= 4 && chars[i] == '\r' && chars[i + 1] == '\n' && chars[i + 2] == '\r'
            && chars[i + 3] == '\n' {
            let head = string_of(&chars, 0, i);
            let body = string_of(&chars, i + 4, n);
            assert(head@ =~= text@.take(i as int));
            assert(body@ =~= text@.skip(i + 4));
            return (read_status(&head), body);
        }
        i += 1;
    }
    let body = String::new();
    assert(body@ =~= Seq::empty());
    (read_status(text), body)
}

/// Whether a scrape with this status is read; any other counts as a miss.
pub fn scrape_accepts(status: u16) -> (r: bool)
    ensures
        r == (200 <= status <= 299),
{
    200 <= status && status <= 299
}

/// The columns of a series: the footprint of the process, then the gauges.
pub fn series_columns(gauges: &Vec<String>) -> (out: Vec<String>)
    ensures
        texts(out@) == seq!["rss_kb"@, "vmhwm_kb"@, "fds"@, "threads"@] + texts(gauges@),
{
    let mut out: Vec<String> = Vec::new();
    out.push("rss_kb".to_owned());
    out.push("vmhwm_kb".to_owned());
    out.push("fds".to_owned());
    out.push("threads".to_owned());
    let ghost base = seq!["rss_kb"@, "vmhwm_kb"@, "fds"@, "threads"@];
    let mut i: usize = 0;
    assert(texts(out@) =~= base + texts(gauges@).take(0));
    while i < gauges.len()
        invariant
            i <= gauges@.len(),
            texts(out@) == base + texts(gauges@).take(i as int),
        decreases gauges@.len() - i,
    {
        let ghost before = texts(out@);
        out.push(gauges[i].clone());
        assert(texts(out@) =~= before.push(gauges@[i as int]@));
        assert(base + texts(gauges@).take(i + 1) =~= (base + texts(gauges@).take(i as int)).push(
            gauges@[i as int]@,
        ));
        i += 1;
    }
    assert(texts(gauges@).take(i as int) =~= texts(gauges@));
    out
}

/// A value, or the pattern of a missing one.
pub open spec fn present(v: Option<u64>) -> u64 {
    match v {
        Some(x) => x,
        None => MISSING,
    }
}

/// One row: the footprint, which is missing as a whole when the process could
/// not be read, then the gauges, of which each may be missing.
pub fn build_row(footprint: Option<(u64, u64, u64, u64)>, gauges: &Vec<Option<u64>>) -> (row: Vec<u64>)
    ensures
        row@ == match footprint {
            Some((rss, hwm, fds, threads)) => seq![rss, hwm, fds, threads],
            None => seq![MISSING, MISSING, MISSING, MISSING],
        } + gauges@.map_values(|g: Option<u64>| present(g)),
{
    let mut row: Vec<u64> = Vec::new();
    match footprint {
        Some((rss, hwm, fds, threads)) => {
            row.push(rss);
            row.push(hwm);
            row.push(fds);
            row.push(threads);
        },
        None => {
            row.push(MISSING);
            row.push(MISSING);
            row.push(MISSING);
            row.push(MISSING);
        },
    }
    let ghost base = row@;
    let mut i: usize = 0;
    while i < gauges.len()
        invariant
            i <= gauges@.len(),
            base.len() == 4,
            row@ =~= base + gauges@.take(i as int).map_values(|g: Option<u64>| present(g)),
        decreases gauges@.len() - i,
    {
        let value: u64 = match gauges[i] {
            Some(v) => v,
            None => MISSING,
        };
        row.push(value);
        i += 1;
    }
    assert(gauges@.take(i as int) =~= gauges@);
    row
}

/// Whether a head of a response ends at a place: with two line breaks.
pub open spec fn ends_head(s: Seq<char>, i: int) -> bool {
    0 <= i && i + 4 <= s.len() && s.subrange(i, i + 4) == seq!['\r', '\n', '\r', '\n']
}

/// How a response is taken apart: the body is what follows the first two line
/// breaks, and without them there is none; the status is the second word of the
/// first line, where that is a number, else zero.
pub proof fn law_response(
    text: &str,
    head: &str,
    body: Seq<char>,
    r: (u16, String),
    rows: Vec<String>,
    first: &str,
    parts: Vec<String>,
    second: &str,
    n: Option<u64>,
)
    requires
        call_ensures(parse_response, (text,), r),
        forall|i: int| 0 <= i < head@.len() ==> !#[trigger] ends_head(text@, i),
        text@ == head@ + seq!['\r', '\n', '\r', '\n'] + body || (text@ == head@ && body.len() == 0),
        call_ensures(lines_of, (head,), rows),
        rows@.len() > 0 ==> first@ == rows@[0]@,
        call_ensures(words_of, (first,), parts),
        parts@.len() > 1 ==> second@ == parts@[1]@,
        call_ensures(parse_unsigned, (second, 65_535), n),
    ensures
        r.1@ == body,
        rows@.len() == 0 ==> r.0 == 0,
        rows@.len() > 0 && parts@.len() <= 1 ==> r.0 == 0,
        rows@.len() > 0 && parts@.len() > 1 ==> match n {
            Some(v) => r.0 == v,
            None => r.0 == 0,
        },
{
    let s = text@;
    let k = head@.len();
    assert forall|i: int| 0 <= i < k implies !#[trigger] blank_at(s, i) by {
        if blank_at(s, i) {
            assert(s.subrange(i, i + 4) =~= seq!['\r', '\n', '\r', '\n']);
            assert(ends_head(s, i));
        }
    }
    let cut = seq!['\r', '\n', '\r', '\n'];
    if s == head@ + cut + body {
        let at = k as int;
        assert(s[at] == cut[0] && s[at + 1] == cut[1] && s[at + 2] == cut[2] && s[at + 3] == cut[3]);
        assert(blank_at(s, k as int));
        lemma_first_blank(s, 0, k);
        assert(s.take(k as int) =~= head@);
        assert(s.skip(k as int + 4) =~= body);
    } else {
        lemma_no_blank(s, 0);
        assert(body =~= Seq::<char>::empty());
    }
    assert(head_and_body(s) == (head@, body));
    assert(texts(rows@).len() == rows@.len());
    if rows@.len() > 0 {
        assert(texts(rows@)[0] == rows@[0]@);
        assert(texts(parts@).len() == parts@.len());
        if parts@.len() > 1 {
            assert(texts(parts@)[1] == parts@[1]@);
        }
    }
}

proof fn lemma_first_blank(s: Seq<char>, i: nat, k: nat)
    requires
        i <= k,
        blank_at(s, k as int),
        forall|j: int| i <= j < k ==> !#[trigger] blank_at(s, j),
    ensures
        blank_from(s, i) == Some(k),
    decreases k - i,
{
    if i < k {
        assert(!blank_at(s, i as int));
        lemma_first_blank(s, i + 1, k);
    }
}

proof fn lemma_no_blank(s: Seq<char>, i: nat)
    requires
        forall|j: int| i <= j < s.len() ==> !#[trigger] blank_at(s, j),
    ensures
        blank_from(s, i) is None,
    decreases s.len() - i,
{
    if i + 4 <= s.len() {
        assert(!blank_at(s, i as int));
        lemma_no_blank(s, i + 1);
    }
}

/// What a row holds: the four figures of the process in the order of their
/// columns, missing where it could not be looked at, and then a value for each
/// gauge, missing where it had none.
pub proof fn law_row(
    footprint: Option<(u64, u64, u64, u64)>,
    gauges: Vec<Option<u64>>,
    row: Vec<u64>,
    names: Vec<String>,
    columns: Vec<String>,
    i: int,
)
    requires
        call_ensures(build_row, (footprint, &gauges), row),
        call_ensures(series_columns, (&names,), columns),
    ensures
        row@.len() == 4 + gauges@.len(),
        columns@.len() == 4 + names@.len(),
        columns@[0]@ == "rss_kb"@ && columns@[1]@ == "vmhwm_kb"@ && columns@[2]@ == "fds"@
            && columns@[3]@ == "threads"@,
        0 <= i < names@.len() ==> columns@[4 + i]@ == names@[i]@,
        footprint matches Some((rss, hwm, fds, threads)) ==> row@[0] == rss && row@[1] == hwm && row@[2]
            == fds && row@[3] == threads,
        footprint is None ==> row@[0] == 0x7ff8_0000_0000_0000 && row@[1] == 0x7ff8_0000_0000_0000
            && row@[2] == 0x7ff8_0000_0000_0000 && row@[3] == 0x7ff8_0000_0000_0000,
        0 <= i < gauges@.len() ==> match gauges@[i] {
            Some(v) => row@[4 + i] == v,
            None => row@[4 + i] == 0x7ff8_0000_0000_0000,
        },
{
    let c = texts(columns@);
    assert(c.len() == columns@.len());
    assert(c[0] == columns@[0]@ && c[1] == columns@[1]@ && c[2] == columns@[2]@ && c[3]
        == columns@[3]@);
    if 0 <= i < names@.len() {
        assert(c[4 + i] == columns@[4 + i]@);
        assert(texts(names@)[i] == names@[i]@);
    }
}

/// A scrape counts exactly with a status of success.
pub proof fn law_scrape_accepts(status: u16, r: bool)
    requires
        call_ensures(scrape_accepts, (status,), r),
    ensures
        r <==> status / 100 == 2,
{
}

} // verus!
