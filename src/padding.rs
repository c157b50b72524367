//! Right-padding a string to a target display width.
use unicode_width::UnicodeWidthStr;
use vstd::prelude::*;

verus! {

/// The number of terminal columns `s` occupies, as unicode-width measures
/// it (East Asian wide glyphs take two, combining marks none).
pub uninterp spec fn display_width(s: Seq<char>) -> nat;

/// `k` ASCII spaces.
pub open spec fn spaces(k: nat) -> Seq<char> {
    Seq::new(k, |_i: int| ' ')
}

/// Relies on `UnicodeWidthStr::width` for `str`: the result is the display
/// width of `s`. The width is a right-to-left fold whose state stays at its
/// initial value across an ASCII space, which adds one column, so trailing
/// spaces add one column each; the empty string folds to zero.
#[verifier::external_body]
fn width_of(s: &str) -> (r: usize)
    ensures
        r as nat == display_width(s@),
        s@.len() == 0 ==> r == 0,
        forall|k: nat| #[trigger] display_width(s@ + spaces(k)) == r + k,
{
    s.width()
}

/// Pads `s` on the right with spaces up to display width `total_width`;
/// a string already that wide or wider is returned as it is.
pub fn pad_string_to_width(s: &str, total_width: usize) -> (r: String)
    ensures
        display_width(s@) >= total_width ==> r@ == s@,
        display_width(s@) < total_width ==> {
            &&& r@ == s@ + spaces((total_width - display_width(s@)) as nat)
            &&& display_width(r@) == total_width
        },
{
    let current_width = width_of(s);
    let mut result = String::from_str(s);
    if current_width >= total_width {
        return result;
    }
    let padding = total_width - current_width;
    let mut i: usize = 0;
    while i < padding
        invariant
            i <= padding,
            result@ == s@ + spaces(i as nat),
        decreases padding - i,
    {
        proof { reveal_strlit(" "); }
        result.append(" ");
        i += 1;
        assert(result@ =~= s@ + spaces(i as nat));
    }
    result
}

} // verus!
