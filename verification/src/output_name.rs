//! The name generated output takes when no output path is given: the input
//! file's stem, followed by the tracks the output was restricted to.

use vstd::prelude::*;
use vstd::string::StringExecFns;

verus! {

/// The items, in order, with `sep` between each two of them.
pub open spec fn joined(items: Seq<Seq<char>>, sep: Seq<char>) -> Seq<char>
    decreases items.len(),
{
    if items.len() == 0 {
        Seq::empty()
    } else if items.len() == 1 {
        items[0]
    } else {
        joined(items.drop_last(), sep) + sep + items.last()
    }
}

/// The stem alone when no track was selected, else `"<stem> - <t1>&<t2>..."`.
pub open spec fn stem_with_tracks(stem: Seq<char>, tracks: Seq<Seq<char>>) -> Seq<char> {
    if tracks.len() == 0 {
        stem
    } else {
        stem + seq![' ', '-', ' '] + joined(tracks, seq!['&'])
    }
}

pub open spec fn strings_view(v: Seq<String>) -> Seq<Seq<char>> {
    v.map_values(|t: String| t@)
}

/// The output file name (without extension) for an input file stem and the
/// selected tracks.
pub fn output_stem_name(stem: &str, tracks: &Vec<String>) -> (r: String)
    ensures
        r@ == stem_with_tracks(stem@, strings_view(tracks@)),
{
    let mut r = String::from_str(stem);
    if tracks.len() == 0 {
        return r;
    }
    proof {
        reveal_strlit(" - ");
    }
    r.append(" - ");
    let ghost head = r@;
    let ghost items = strings_view(tracks@);
    let mut i: usize = 0;
    while i < tracks.len()
        invariant
            0 <= i <= tracks@.len(),
            items == strings_view(tracks@),
            head == stem@ + seq![' ', '-', ' '],
            r@ == head + joined(items.take(i as int), seq!['&']),
        decreases tracks@.len() - i,
    {
        assert(items.take(i + 1).drop_last() == items.take(i as int));
        assert(items.take(i + 1).last() == tracks@[i as int]@);
        proof {
            reveal_strlit("&");
        }
        if i > 0 {
            r.append("&");
        }
        r.append(tracks[i].as_str());
        i = i + 1;
    }
    assert(items.take(i as int) == items);
    r
}

} // verus!
