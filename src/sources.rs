//! Reading the source list: one source per outline line that names both a
//! display text and a feed address; the first such line describes the list
//! itself and is left out.

use vstd::prelude::*;
use crate::extract::{first_url, first_capture, texts};
use crate::trusted::{first_groups, lines_of, capture_first_groups, split_lines};

verus! {

/// The display name attribute of an outline line; group 1 is the name.
pub const NAME_PATTERN: &'static str = "text=\"([^\"]+)\"";

/// The feed address attribute of an outline line; group 1 is the address.
pub const ADDRESS_PATTERN: &'static str = "xmlUrl=\"([^\"]+)\"";

/// One feed to fetch.
#[derive(Clone, Debug)]
pub struct Source {
    pub name: String,
    pub address: String,
}

impl View for Source {
    type V = (Seq<char>, Seq<char>);

    open spec fn view(&self) -> (Seq<char>, Seq<char>) {
        (self.name@, self.address@)
    }
}

/// The source a line declares: its name and address, when it gives both.
pub open spec fn line_source(line: Seq<char>) -> Option<(Seq<char>, Seq<char>)> {
    match (first_url(first_groups(NAME_PATTERN@, line)), first_url(first_groups(ADDRESS_PATTERN@, line))) {
        (Some(n), Some(u)) => Some((n, u)),
        _ => None,
    }
}

/// The sources that the lines declare, in order.
pub open spec fn declared_sources(lines: Seq<Seq<char>>) -> Seq<(Seq<char>, Seq<char>)>
    decreases lines.len(),
{
    if lines.len() == 0 {
        Seq::empty()
    } else {
        let rest = declared_sources(lines.drop_last());
        match line_source(lines.last()) {
            Some(s) => rest.push(s),
            None => rest,
        }
    }
}

/// The source list of an outline text: every declared source but the first.
pub open spec fn source_list(text: Seq<char>) -> Seq<(Seq<char>, Seq<char>)> {
    let d = declared_sources(lines_of(text));
    if d.len() == 0 {
        d
    } else {
        d.drop_first()
    }
}

/// The source that one line declares, if it gives both a name and an address.
pub fn parse_line(line: &str) -> (r: Option<Source>)
    ensures
        match r {
            Some(s) => line_source(line@) == Some(s@),
            None => line_source(line@) is None,
        },
{
    let name = first_capture(&capture_first_groups(NAME_PATTERN, line));
    let address = first_capture(&capture_first_groups(ADDRESS_PATTERN, line));
    match (name, address) {
        (Some(n), Some(u)) => Some(Source { name: n, address: u }),
        _ => None,
    }
}

/// The sources of an outline text, in order, without the first declared one.
pub fn parse_source_list(text: &str) -> (r: Vec<Source>)
    ensures
        r@.map_values(|s: Source| s@) == source_list(text@),
{
    let lines = split_lines(text);
    let ghost lv = texts(lines@);
    assert(lv == lines_of(text@));
    let mut r: Vec<Source> = Vec::new();
    let mut seen_first = false;
    let mut i: usize = 0;
    while i < lines.len()
        invariant
            i <= lines@.len(),
            lv == texts(lines@),
            seen_first == (declared_sources(lv.subrange(0, i as int)).len() > 0),
            seen_first ==> r@.map_values(|s: Source| s@) == declared_sources(lv.subrange(0, i as int)).drop_first(),
            !seen_first ==> r@.len() == 0,
        decreases lines@.len() - i,
    {
        assert(lv.subrange(0, i as int + 1).drop_last() =~= lv.subrange(0, i as int));
        assert(lv.subrange(0, i as int + 1).last() == lines@[i as int]@);
        let ghost before = r@;
        let ghost d = declared_sources(lv.subrange(0, i as int));
        if let Some(s) = parse_line(lines[i].as_str()) {
            if seen_first {
                let ghost sv = s@;
                r.push(s);
                assert(d.push(sv).drop_first() =~= d.drop_first().push(sv));
                assert(r@.map_values(|x: Source| x@) =~= before.map_values(|x: Source| x@).push(sv));
            } else {
                seen_first = true;
                assert(d.push(s@).drop_first() =~= Seq::<(Seq<char>, Seq<char>)>::empty());
                assert(r@.map_values(|s: Source| s@) =~= d.push(s@).drop_first());
            }
        }
        i = i + 1;
    }
    assert(lv.subrange(0, lines@.len() as int) == lv);
    r
}

} // verus!
