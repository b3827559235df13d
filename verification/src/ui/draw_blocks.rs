//! The computational side of the drawing layer; the painting itself is
//! the render boundary and lives outside the library.

use vstd::prelude::*;

verus! {

/// The width in characters of the widest line of a text block.
pub open spec fn spec_max_line_width(s: Seq<char>) -> int {
    spec_max_width_fold(crate::text::spec_split_lines(s))
}

/// The longest length among the given lines.
pub open spec fn spec_max_width_fold(lines: Seq<Seq<char>>) -> int
    decreases lines.len(),
{
    if lines.len() == 0 {
        0int
    } else {
        let w = spec_max_width_fold(lines.drop_last());
        if lines.last().len() > w {
            lines.last().len() as int
        } else {
            w
        }
    }
}

/// The width in characters of the widest line of a text block, used to
/// size popups around their content.
pub fn max_line_width(text: &str) -> (r: usize)
    ensures
        r as int == spec_max_line_width(text@),
{
    let lines = crate::text::split_lines(text);
    let ghost lv = lines@.map_values(|l: String| l@);
    let n = lines.len();
    let mut best: usize = 0;
    let mut i: usize = 0;
    proof {
        assert(lv.subrange(0, 0) =~= Seq::<Seq<char>>::empty());
    }
    while i < n
        invariant
            n == lines@.len(),
            lv == lines@.map_values(|l: String| l@),
            i <= n,
            best as int == spec_max_width_fold(lv.subrange(0, i as int)),
        decreases n - i,
    {
        proof {
            assert(lv[i as int] == lines@[i as int]@);
        }
        let w = lines[i].as_str().unicode_len();
        if w > best {
            best = w;
        }
        proof {
            assert(lv.subrange(0, i + 1).drop_last() =~= lv.subrange(0, i as int));
            assert(lv.subrange(0, i + 1).last() == lv[i as int]);
        }
        i += 1;
    }
    proof {
        assert(lv.subrange(0, n as int) =~= lv);
    }
    best
}

} // verus!
