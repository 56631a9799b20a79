//! Support for the (external) tabular renderer: right-padding of cells and
//! the column widths the final table needs.

use vstd::prelude::*;
use crate::event::{display_kind, Event};

verus! {

/// `n` spaces.
pub open spec fn spaces(n: int) -> Seq<char>
    decreases n,
{
    if n <= 0 {
        Seq::empty()
    } else {
        spaces(n - 1).push(' ')
    }
}

/// What `pad_to_width` returns: `s` padded on the right with spaces up to
/// `width`, or unchanged when already as wide.
pub open spec fn spec_pad_to_width(s: Seq<char>, width: int) -> Seq<char> {
    if s.len() >= width {
        s
    } else {
        s + spaces(width - s.len())
    }
}

/// Pad a cell on the right with spaces up to `width`; a wider cell passes
/// through unchanged.
pub fn pad_to_width(s: &str, width: usize) -> (r: String)
    ensures
        r@ == spec_pad_to_width(s@, width as int),
{
    let n = s.unicode_len();
    let mut r = s.to_owned();
    if n >= width {
        return r;
    }
    let mut i: usize = n;
    proof {
        assert(r@ =~= s@ + spaces(0));
    }
    while i < width
        invariant
            n <= i <= width,
            n == s@.len(),
            r@ == s@ + spaces(i - n),
        decreases width - i,
    {
        r.append(" ");
        proof {
            reveal_strlit(" ");
            assert(r@ =~= s@ + spaces(i + 1 - n));
        }
        i += 1;
    }
    r
}

/// Width of the category column over the final events: the widest display
/// label, at least 10 for the header.
pub open spec fn spec_kind_width(s: Seq<Event>) -> int
    decreases s.len(),
{
    if s.len() == 0 {
        10
    } else {
        let rest = spec_kind_width(s.drop_last());
        let w = display_kind(s.last().event_type@).len() as int;
        if w > rest {
            w
        } else {
            rest
        }
    }
}

/// Width of the repository column over the final events: the widest
/// identifier, at least 10 for the header.
pub open spec fn spec_repo_width(s: Seq<Event>) -> int
    decreases s.len(),
{
    if s.len() == 0 {
        10
    } else {
        let rest = spec_repo_width(s.drop_last());
        let w = s.last().repo.name@.len() as int;
        if w > rest {
            w
        } else {
            rest
        }
    }
}

/// The widths of the category and repository columns of the final table.
pub fn column_widths(events: &Vec<Event>) -> (r: (usize, usize))
    ensures
        r.0 == spec_kind_width(events@),
        r.1 == spec_repo_width(events@),
{
    let mut kind_width: usize = 10;
    let mut repo_width: usize = 10;
    let mut i: usize = 0;
    while i < events.len()
        invariant
            0 <= i <= events@.len(),
            kind_width == spec_kind_width(events@.take(i as int)),
            repo_width == spec_repo_width(events@.take(i as int)),
        decreases events@.len() - i,
    {
        proof {
            assert(events@.take(i + 1).drop_last() =~= events@.take(i as int));
            assert(events@.take(i + 1).last() == events@[i as int]);
        }
        let label = events[i].formatted_type();
        let w = label.as_str().unicode_len();
        if w > kind_width {
            kind_width = w;
        }
        let rw = events[i].repo.name.as_str().unicode_len();
        if rw > repo_width {
            repo_width = rw;
        }
        i += 1;
    }
    proof {
        assert(events@.take(events@.len() as int) =~= events@);
    }
    (kind_width, repo_width)
}

} // verus!
