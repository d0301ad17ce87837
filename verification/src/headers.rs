//! Looking up HTTP headers by name, ignoring case.

use vstd::prelude::*;
use crate::text::same;

verus! {

/// A text in lower case, by the Unicode mapping.
pub uninterp spec fn lowercase(text: Seq<char>) -> Seq<char>;

/// `str::to_lowercase` maps a text to lower case; the result depends on the
/// text alone. What the mapping is for given characters is left unsaid.
#[verifier::external_body]
fn to_lowercase(text: &str) -> (r: String)
    ensures
        r@ == lowercase(text@),
{
    text.to_lowercase()
}

/// Headers as character sequences.
pub open spec fn header_texts(headers: Seq<(String, String)>) -> Seq<(Seq<char>, Seq<char>)> {
    headers.map_values(|h: (String, String)| (h.0@, h.1@))
}

/// The headers with their names in lower case.
pub open spec fn lowered(headers: Seq<(Seq<char>, Seq<char>)>) -> Seq<(Seq<char>, Seq<char>)> {
    headers.map_values(|h: (Seq<char>, Seq<char>)| (lowercase(h.0), h.1))
}

/// The value of the first header called `name`.
pub open spec fn first_value(
    headers: Seq<(Seq<char>, Seq<char>)>,
    name: Seq<char>,
) -> Option<Seq<char>>
    decreases headers.len(),
{
    if headers.len() == 0 {
        None
    } else if headers[0].0 == name {
        Some(headers[0].1)
    } else {
        first_value(headers.skip(1), name)
    }
}

/// The headers with their names in lower case.
pub fn lower_names(headers: &Vec<(String, String)>) -> (out: Vec<(String, String)>)
    ensures
        header_texts(out@) == lowered(header_texts(headers@)),
{
    let mut out: Vec<(String, String)> = Vec::new();
    let mut i: usize = 0;
    while i < headers.len()
        invariant
            i <= headers@.len(),
            out@.len() == i,
            forall|j: int|
                0 <= j < i ==> (#[trigger] out@[j]).0@ == lowercase(headers@[j].0@) && out@[j].1@
                    == headers@[j].1@,
        decreases headers@.len() - i,
    {
        let name = to_lowercase(&headers[i].0);
        let value = headers[i].1.clone();
        out.push((name, value));
        i += 1;
    }
    assert(header_texts(out@) =~= lowered(header_texts(headers@)));
    out
}

/// The value of the first header called `name`, by exact comparison.
pub fn value_of(headers: &Vec<(String, String)>, name: &str) -> (r: Option<String>)
    ensures
        match r {
            Some(v) => first_value(header_texts(headers@), name@) == Some(v@),
            None => first_value(header_texts(headers@), name@) is None,
        },
{
    let ghost all = header_texts(headers@);
    let mut i: usize = 0;
    assert(all.skip(0) =~= all);
    while i < headers.len()
        invariant
            i <= headers@.len(),
            all == header_texts(headers@),
            first_value(all, name@) == first_value(all.skip(i as int), name@),
        decreases headers@.len() - i,
    {
        assert(all.skip(i as int).skip(1) =~= all.skip(i + 1));
        assert(all.skip(i as int)[0] == (headers@[i as int].0@, headers@[i as int].1@));
        if same(&headers[i].0, name) {
            return Some(headers[i].1.clone());
        }
        i += 1;
    }
    assert(all.skip(i as int) =~= seq![]);
    None
}

/// The value of the first header called `name`, ignoring case.
pub fn find_header(headers: &Vec<(String, String)>, name: &str) -> (r: Option<String>)
    ensures
        match r {
            Some(v) => first_value(lowered(header_texts(headers@)), lowercase(name@)) == Some(v@),
            None => first_value(lowered(header_texts(headers@)), lowercase(name@)) is None,
        },
{
    let lower = to_lowercase(name);
    let names = lower_names(headers);
    value_of(&names, &lower)
}

/// The first header of a name is the one before which none has it; where none
/// has it there is no value.
pub proof fn lemma_first_value(headers: Seq<(Seq<char>, Seq<char>)>, name: Seq<char>, h: int)
    requires
        0 <= h <= headers.len(),
        forall|k: int| 0 <= k < h ==> (#[trigger] headers[k]).0 != name,
        h < headers.len() ==> headers[h].0 == name,
    ensures
        first_value(headers, name) == if h < headers.len() {
            Some(headers[h].1)
        } else {
            None
        },
    decreases h,
{
    if h > 0 {
        assert(headers[0].0 != name);
        let rest = headers.skip(1);
        assert forall|k: int| 0 <= k < h - 1 implies (#[trigger] rest[k]).0 != name by {
            assert(rest[k] == headers[k + 1]);
        }
        lemma_first_value(rest, name, h - 1);
        if h < headers.len() {
            assert(rest[h - 1] == headers[h]);
        }
    }
}

/// The header that is found is the first one of the name, in any case, and its
/// value comes back as it stands.
pub proof fn law_first_header_is_found(
    headers: Vec<(String, String)>,
    name: &str,
    r: Option<String>,
    h: int,
)
    requires
        call_ensures(find_header, (&headers, name), r),
    ensures
        0 <= h < headers@.len() && lowercase(headers@[h].0@) == lowercase(name@) && (forall|k: int|
            0 <= k < h ==> lowercase((#[trigger] headers@[k]).0@) != lowercase(name@)) ==> (
        r matches Some(v) && v@ == headers@[h].1@),
        (forall|k: int|
            0 <= k < headers@.len() ==> lowercase((#[trigger] headers@[k]).0@) != lowercase(name@))
            ==> r is None,
{
    let low = lowered(header_texts(headers@));
    let wanted = lowercase(name@);
    assert forall|k: int| 0 <= k < low.len() implies #[trigger] low[k] == (
        lowercase(headers@[k].0@),
        headers@[k].1@,
    ) by {}
    if 0 <= h < headers@.len() && lowercase(headers@[h].0@) == wanted && forall|k: int|
        0 <= k < h ==> lowercase((#[trigger] headers@[k]).0@) != wanted {
        assert forall|k: int| 0 <= k < h implies (#[trigger] low[k]).0 != wanted by {
            assert(lowercase(headers@[k].0@) != wanted);
        }
        lemma_first_value(low, wanted, h);
    }
    if forall|k: int|
        0 <= k < headers@.len() ==> lowercase((#[trigger] headers@[k]).0@) != wanted {
        assert forall|k: int| 0 <= k < low.len() implies (#[trigger] low[k]).0 != wanted by {
            assert(lowercase(headers@[k].0@) != wanted);
        }
        lemma_first_value(low, wanted, low.len() as int);
    }
}

/// Lowering the names of headers changes nothing else: as many, in the same order,
/// each with its own value.
pub proof fn law_names_are_lowered(headers: Vec<(String, String)>, out: Vec<(String, String)>, i: int)
    requires
        call_ensures(lower_names, (&headers,), out),
    ensures
        out@.len() == headers@.len(),
        0 <= i < out@.len() ==> out@[i].0@ == lowercase(headers@[i].0@) && out@[i].1@ == headers@[i].1@,
{
    let t = header_texts(out@);
    let l = lowered(header_texts(headers@));
    assert(t.len() == out@.len() && l.len() == headers@.len());
    if 0 <= i < out@.len() {
        assert(t[i] == l[i]);
    }
}

/// The value of a name is that of the first header that has it.
pub proof fn law_value_of_a_name(headers: Vec<(String, String)>, name: &str, r: Option<String>, h: int)
    requires
        call_ensures(value_of, (&headers, name), r),
    ensures
        0 <= h < headers@.len() && headers@[h].0@ == name@ && (forall|k: int|
            0 <= k < h ==> (#[trigger] headers@[k]).0@ != name@) ==> (r matches Some(v) && v@
            == headers@[h].1@),
        (forall|k: int| 0 <= k < headers@.len() ==> (#[trigger] headers@[k]).0@ != name@) ==> r is None,
{
    let t = header_texts(headers@);
    assert forall|k: int| 0 <= k < t.len() implies (#[trigger] t[k]) == (
        headers@[k].0@,
        headers@[k].1@,
    ) by {}
    if 0 <= h < headers@.len() && headers@[h].0@ == name@ && (forall|k: int|
        0 <= k < h ==> (#[trigger] headers@[k]).0@ != name@) {
        assert forall|k: int| 0 <= k < h implies (#[trigger] t[k]).0 != name@ by {
            assert(headers@[k].0@ != name@);
        }
        lemma_first_value(t, name@, h);
    }
    if forall|k: int| 0 <= k < headers@.len() ==> (#[trigger] headers@[k]).0@ != name@ {
        assert forall|k: int| 0 <= k < t.len() implies (#[trigger] t[k]).0 != name@ by {
            assert(headers@[k].0@ != name@);
        }
        lemma_first_value(t, name@, t.len() as int);
    }
}

} // verus!
