//! The memory and thread footprint of a process, from its status file.

use vstd::prelude::*;
use crate::text::{
    lines, lines_of, parse_unsigned, split_at_first, split_once, texts, trim, trimmed, unsigned_value, words, words_of,
};

verus! {

/// The operating system's view of a process. Sizes are in kilobytes.
#[derive(Debug, Clone, Copy, PartialEq, Eq, Structural)]
pub struct ProcFootprint {
    pub rss_kb: u64,
    pub vmhwm_kb: u64,
    pub threads: u64,
    pub fds: u64,
}

impl Default for ProcFootprint {
    fn default() -> (r: Self)
        ensures
            r == (ProcFootprint { rss_kb: 0, vmhwm_kb: 0, threads: 0, fds: 0 }),
    {
        ProcFootprint { rss_kb: 0, vmhwm_kb: 0, threads: 0, fds: 0 }
    }
}

/// The number that the first word of `rest` stands for; zero when there is
/// none, or it is no number.
pub open spec fn first_number(rest: Seq<char>) -> u64 {
    if words(rest).len() > 0 {
        match unsigned_value(words(rest)[0], u64::MAX as nat) {
            Some(v) => v as u64,
            None => 0,
        }
    } else {
        0
    }
}

/// The footprint after one more status line.
pub open spec fn with_line(fp: ProcFootprint, line: Seq<char>) -> ProcFootprint {
    match split_once(line, ':') {
        None => fp,
        Some((key, rest)) => {
            let v = first_number(rest);
            if trim(key) == "VmRSS"@ {
                ProcFootprint { rss_kb: v, ..fp }
            } else if trim(key) == "VmHWM"@ {
                ProcFootprint { vmhwm_kb: v, ..fp }
            } else if trim(key) == "Threads"@ {
                ProcFootprint { threads: v, ..fp }
            } else {
                fp
            }
        },
    }
}

/// The footprint that a sequence of status lines describes: a later line
/// overrides an earlier one with the same key.
pub open spec fn footprint(status: Seq<Seq<char>>) -> ProcFootprint
    decreases status.len(),
{
    if status.len() == 0 {
        ProcFootprint { rss_kb: 0, vmhwm_kb: 0, threads: 0, fds: 0 }
    } else {
        with_line(footprint(status.drop_last()), status.last())
    }
}

fn number_of(rest: &str) -> (v: u64)
    ensures
        v == first_number(rest@),
{
    let tokens = words_of(rest);
    if tokens.len() > 0 {
        assert(words(rest@)[0] == tokens@[0]@) by {
            assert(texts(tokens@)[0] == tokens@[0]@);
        }
        match parse_unsigned(&tokens[0], u64::MAX) {
            Some(v) => v,
            None => 0,
        }
    } else {
        assert(words(rest@).len() == 0);
        0
    }
}

/// Reads the footprint out of a process's status text. Lines without a colon
/// and unknown keys are skipped; a known key without a number reads as zero.
pub fn parse_status(status: &str) -> (fp: ProcFootprint)
    ensures
        fp == footprint(lines(status@)),
{
    let rows = lines_of(status);
    let ghost all = lines(status@);
    let mut fp = ProcFootprint::default();
    let mut i: usize = 0;
    while i < rows.len()
        invariant
            i <= rows@.len(),
            all == texts(rows@),
            fp == footprint(all.take(i as int)),
        decreases rows@.len() - i,
    {
        proof {
            assert(all.take(i + 1).drop_last() =~= all.take(i as int));
            assert(all.take(i + 1).last() == rows@[i as int]@);
        }
        match split_at_first(&rows[i], ':') {
            None => {},
            Some(pair) => {
                let key = trimmed(&pair.0);
                let v: u64 = number_of(&pair.1);
                if crate::text::same(&key, "VmRSS") {
                    fp.rss_kb = v;
                } else if crate::text::same(&key, "VmHWM") {
                    fp.vmhwm_kb = v;
                } else if crate::text::same(&key, "Threads") {
                    fp.threads = v;
                }
            },
        }
        i += 1;
    }
    assert(all.take(all.len() as int) =~= all);
    fp
}

/// The footprint of a live process: its status with the number of its open
/// descriptors. A process whose status cannot be read has none.
pub fn footprint_of(status: Option<&str>, fds: u64) -> (r: Option<ProcFootprint>)
    ensures
        match status {
            Some(text) => r == Some(ProcFootprint { fds, ..footprint(lines(text@)) }),
            None => r is None,
        },
{
    match status {
        Some(text) => {
            let mut fp = parse_status(text);
            fp.fds = fds;
            Some(fp)
        },
        None => None,
    }
}

/// Whether a line of the status names a figure: what stands before its first
/// colon is the name.
pub open spec fn names_figure(line: Seq<char>, name: Seq<char>) -> bool {
    split_once(line, ':') is Some && trim((split_once(line, ':')->0).0) == name
}

/// The figure of a line: the first word behind its first colon where that is a
/// number, else zero.
pub open spec fn figure(line: Seq<char>) -> nat {
    let w = words((split_once(line, ':')->0).1);
    if w.len() > 0 && unsigned_value(w[0], u64::MAX as nat) is Some {
        unsigned_value(w[0], u64::MAX as nat)->0
    } else {
        0
    }
}

/// Whether the line with number `k` is the last one that names a figure.
pub open spec fn names_last(all: Seq<Seq<char>>, name: Seq<char>, k: int) -> bool {
    &&& 0 <= k < all.len()
    &&& names_figure(all[k], name)
    &&& forall|j: int| k < j < all.len() ==> !names_figure(#[trigger] all[j], name)
}

/// What a status says: of the memory, its peak and the threads each the figure of
/// the last line that names it, and zero where none does.
pub proof fn law_status_figures(status: &str, all: Vec<String>, fp: ProcFootprint, k: int)
    requires
        call_ensures(lines_of, (status,), all),
        call_ensures(parse_status, (status,), fp),
    ensures
        names_last(texts(all@), "VmRSS"@, k) ==> fp.rss_kb == figure(all@[k]@),
        names_last(texts(all@), "VmHWM"@, k) ==> fp.vmhwm_kb == figure(all@[k]@),
        names_last(texts(all@), "Threads"@, k) ==> fp.threads == figure(all@[k]@),
        (forall|j: int| 0 <= j < all@.len() ==> !names_figure((#[trigger] all@[j])@, "VmRSS"@))
            ==> fp.rss_kb == 0,
        (forall|j: int| 0 <= j < all@.len() ==> !names_figure((#[trigger] all@[j])@, "VmHWM"@))
            ==> fp.vmhwm_kb == 0,
        (forall|j: int| 0 <= j < all@.len() ==> !names_figure((#[trigger] all@[j])@, "Threads"@))
            ==> fp.threads == 0,
        fp.fds == 0,
{
    let t = texts(all@);
    assert forall|j: int| 0 <= j < t.len() implies #[trigger] t[j] == all@[j]@ by {}
    lemma_figures(t, k);
    if forall|j: int| 0 <= j < all@.len() ==> !names_figure((#[trigger] all@[j])@, "VmRSS"@) {
        assert forall|j: int| 0 <= j < t.len() implies !names_figure(#[trigger] t[j], "VmRSS"@) by {
            assert(!names_figure(all@[j]@, "VmRSS"@));
        }
    }
    if forall|j: int| 0 <= j < all@.len() ==> !names_figure((#[trigger] all@[j])@, "VmHWM"@) {
        assert forall|j: int| 0 <= j < t.len() implies !names_figure(#[trigger] t[j], "VmHWM"@) by {
            assert(!names_figure(all@[j]@, "VmHWM"@));
        }
    }
    if forall|j: int| 0 <= j < all@.len() ==> !names_figure((#[trigger] all@[j])@, "Threads"@) {
        assert forall|j: int| 0 <= j < t.len() implies !names_figure(#[trigger] t[j], "Threads"@) by {
            assert(!names_figure(all@[j]@, "Threads"@));
        }
    }
}

proof fn lemma_figures(all: Seq<Seq<char>>, k: int)
    ensures
        names_last(all, "VmRSS"@, k) ==> footprint(all).rss_kb == figure(all[k]),
        names_last(all, "VmHWM"@, k) ==> footprint(all).vmhwm_kb == figure(all[k]),
        names_last(all, "Threads"@, k) ==> footprint(all).threads == figure(all[k]),
        (forall|j: int| 0 <= j < all.len() ==> !names_figure(#[trigger] all[j], "VmRSS"@))
            ==> footprint(all).rss_kb == 0,
        (forall|j: int| 0 <= j < all.len() ==> !names_figure(#[trigger] all[j], "VmHWM"@))
            ==> footprint(all).vmhwm_kb == 0,
        (forall|j: int| 0 <= j < all.len() ==> !names_figure(#[trigger] all[j], "Threads"@))
            ==> footprint(all).threads == 0,
        footprint(all).fds == 0,
    decreases all.len(),
{
    reveal_strlit("VmRSS");
    reveal_strlit("VmHWM");
    reveal_strlit("Threads");
    assert("VmRSS"@[2] == 'R' && "VmHWM"@[2] == 'H' && "Threads"@[2] == 'r');
    if all.len() > 0 {
        let before = all.drop_last();
        let line = all[all.len() - 1];
        lemma_figures(before, k);
        assert forall|j: int| 0 <= j < before.len() implies #[trigger] before[j] == all[j] by {}
        lemma_figure_before(all, "VmRSS"@, k);
        lemma_figure_before(all, "VmHWM"@, k);
        lemma_figure_before(all, "Threads"@, k);
        assert(footprint(all) == with_line(footprint(before), line));
        assert(split_once(line, ':') is Some ==> first_number((split_once(line, ':')->0).1) == figure(
            line,
        ));
    }
}

proof fn lemma_figure_before(all: Seq<Seq<char>>, name: Seq<char>, k: int)
    requires
        all.len() > 0,
    ensures
        names_last(all, name, k) && k < all.len() - 1 ==> names_last(all.drop_last(), name, k)
            && !names_figure(all[all.len() - 1], name) && all.drop_last()[k] == all[k],
        (forall|j: int| 0 <= j < all.len() ==> !names_figure(#[trigger] all[j], name)) ==> (forall|j: int|
            0 <= j < all.drop_last().len() ==> !names_figure(#[trigger] all.drop_last()[j], name))
            && !names_figure(all[all.len() - 1], name),
{
    let before = all.drop_last();
    assert forall|j: int| 0 <= j < before.len() implies #[trigger] before[j] == all[j] by {}
}

} // verus!
