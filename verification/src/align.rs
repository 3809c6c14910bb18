//! Alignment of text fragments within a fixed display width.
//!
//! All widths are display (terminal column) widths, not byte or character
//! counts; padding is always the single space character. Every operation
//! reports "no fit" (`None`) instead of truncating when the text is wider
//! than the target.

use vstd::prelude::*;
use vstd::string::StringExecFns;

verus! {

/// Display width, in terminal columns, of a character other than a space,
/// as unicode_width's tables give it.
pub uninterp spec fn nonspace_char_width(c: char) -> nat;

/// Display width of one character: a space is one column wide, anything
/// else has the width unicode_width's tables give it.
pub open spec fn char_width(c: char) -> nat {
    if c == ' ' {
        1nat
    } else {
        nonspace_char_width(c)
    }
}

/// Display width of a string: the sum of the widths of its characters.
pub open spec fn str_width(s: Seq<char>) -> nat
    decreases s.len(),
{
    if s.len() == 0 {
        0nat
    } else {
        char_width(s[0]) + str_width(s.skip(1))
    }
}

/// Relies on unicode_width::UnicodeWidthStr::width: the display width of a
/// string is the sum of the display widths of its characters, a space is
/// one column wide, and a one-character string is as wide as that
/// character's own table width.
#[verifier::external_body]
pub(crate) fn display_width(s: &str) -> (r: usize)
    ensures
        r == str_width(s@),
        s@.len() == 1 && s@[0] != ' ' ==> r == nonspace_char_width(s@[0]),
{
    unicode_width::UnicodeWidthStr::width(s)
}

/// A run of `n` blank columns.
pub open spec fn spaces(n: nat) -> Seq<char> {
    Seq::new(n, |i: int| ' ')
}

pub proof fn lemma_str_width_concat(a: Seq<char>, b: Seq<char>)
    ensures
        str_width(a + b) == str_width(a) + str_width(b),
    decreases a.len(),
{
    if a.len() == 0 {
        assert(a + b =~= b);
    } else {
        assert((a + b).skip(1) =~= a.skip(1) + b);
        lemma_str_width_concat(a.skip(1), b);
    }
}

pub proof fn lemma_spaces_width(n: nat)
    ensures
        str_width(spaces(n)) == n,
    decreases n,
{
    if n > 0 {
        assert(spaces(n).skip(1) =~= spaces((n - 1) as nat));
        lemma_spaces_width((n - 1) as nat);
    }
}

/// A string of `n` blank columns.
fn spaces_string(n: usize) -> (r: String)
    ensures
        r@ == spaces(n as nat),
{
    let mut r = String::new();
    let mut i: usize = 0;
    while i < n
        invariant
            i <= n,
            r@ == spaces(i as nat),
        decreases n - i,
    {
        r.append(" ");
        i = i + 1;
        proof {
            reveal_strlit(" ");
            assert(r@ =~= spaces(i as nat));
        }
    }
    r
}

/// `t` at the left edge, blanks filling the remainder of `space`.
pub open spec fn left_layout(t: Seq<char>, space: nat) -> Seq<char>
    recommends
        str_width(t) <= space,
{
    t + spaces((space - str_width(t)) as nat)
}

/// Blanks filling the remainder of `space`, then `t` at the right edge.
pub open spec fn right_layout(t: Seq<char>, space: nat) -> Seq<char>
    recommends
        str_width(t) <= space,
{
    spaces((space - str_width(t)) as nat) + t
}

/// `t` in the middle of `space`: the leftover blanks are split as evenly
/// as possible, with the odd column going to the right side.
pub open spec fn center_layout(t: Seq<char>, space: nat) -> Seq<char>
    recommends
        str_width(t) <= space,
{
    let leftover = (space - str_width(t)) as nat;
    spaces(leftover / 2) + t + spaces((leftover - leftover / 2) as nat)
}

/// Aligns the text to the left: the text, then trailing blanks.
///
/// Returns `None` exactly when the text's display width exceeds `space`.
pub fn left(txt: &str, space: usize) -> (r: Option<String>)
    ensures
        str_width(txt@) <= space ==> (r matches Some(s) && s@ == left_layout(txt@, space as nat)),
        str_width(txt@) > space ==> r is None,
{
    let len = display_width(txt);
    if len > space {
        return None;
    }
    let mut result = txt.to_owned();
    let pad = spaces_string(space - len);
    result.append(pad.as_str());
    Some(result)
}

/// Aligns the text to the right: leading blanks, then the text.
///
/// Returns `None` exactly when the text's display width exceeds `space`.
pub fn right(txt: &str, space: usize) -> (r: Option<String>)
    ensures
        str_width(txt@) <= space ==> (r matches Some(s) && s@ == right_layout(txt@, space as nat)),
        str_width(txt@) > space ==> r is None,
{
    let len = display_width(txt);
    if len > space {
        return None;
    }
    let mut result = spaces_string(space - len);
    result.append(txt);
    Some(result)
}

/// Aligns the text to the center, the leftover blanks split as evenly as
/// possible with the odd column on the right.
///
/// Returns `None` exactly when the text's display width exceeds `space`.
pub fn center(txt: &str, space: usize) -> (r: Option<String>)
    ensures
        str_width(txt@) <= space ==> (r matches Some(s) && s@ == center_layout(txt@, space as nat)),
        str_width(txt@) > space ==> r is None,
{
    let len = display_width(txt);
    if len > space {
        return None;
    }
    let leftover = space - len;
    let each = leftover / 2;
    let mut result = spaces_string(each);
    result.append(txt);
    let pad = spaces_string(leftover - each);
    result.append(pad.as_str());
    Some(result)
}

/// The text a single alignment produces is the text itself between two
/// all-blank runs that fill the target width exactly.
pub proof fn lemma_left_layout_width(t: Seq<char>, space: nat)
    requires
        str_width(t) <= space,
    ensures
        str_width(left_layout(t, space)) == space,
{
    lemma_str_width_concat(t, spaces((space - str_width(t)) as nat));
    lemma_spaces_width((space - str_width(t)) as nat);
}

pub proof fn lemma_right_layout_width(t: Seq<char>, space: nat)
    requires
        str_width(t) <= space,
    ensures
        str_width(right_layout(t, space)) == space,
{
    lemma_str_width_concat(spaces((space - str_width(t)) as nat), t);
    lemma_spaces_width((space - str_width(t)) as nat);
}

pub proof fn lemma_center_layout_width(t: Seq<char>, space: nat)
    requires
        str_width(t) <= space,
    ensures
        str_width(center_layout(t, space)) == space,
{
    let leftover = (space - str_width(t)) as nat;
    lemma_str_width_concat(spaces(leftover / 2) + t, spaces((leftover - leftover / 2) as nat));
    lemma_str_width_concat(spaces(leftover / 2), t);
    lemma_spaces_width(leftover / 2);
    lemma_spaces_width((leftover - leftover / 2) as nat);
}

/// Sum of the display widths of the fragments from index `i` on.
pub open spec fn total_width_from(ts: Seq<Seq<char>>, i: int) -> nat
    decreases ts.len() - i,
{
    if i < 0 || i >= ts.len() {
        0nat
    } else {
        str_width(ts[i]) + total_width_from(ts, i + 1)
    }
}

/// Sum of the display widths of all the fragments.
pub open spec fn total_width(ts: Seq<Seq<char>>) -> nat {
    total_width_from(ts, 0)
}

/// Width of the `i`th padding gap when `rem` leftover columns are spread
/// one each over the first gaps: the gaps left of `rem` are one column
/// wider than the rest.
pub open spec fn gap(each: nat, rem: nat, i: int) -> nat {
    each + if i < rem {
        1nat
    } else {
        0nat
    }
}

/// Sum of the gap widths for gap indices in `[i, n)`.
pub open spec fn gaps_width(each: nat, rem: nat, i: int, n: int) -> nat
    decreases n - i,
{
    if i < 0 || i >= n {
        0nat
    } else {
        gap(each, rem, i) + gaps_width(each, rem, i + 1, n)
    }
}

/// Fragments `i..` laid out left to right with a gap after each fragment
/// but the last.
pub open spec fn between_layout_from(ts: Seq<Seq<char>>, each: nat, rem: nat, i: int) -> Seq<char>
    decreases ts.len() - i,
{
    if i < 0 || i >= ts.len() {
        Seq::empty()
    } else if i == ts.len() - 1 {
        ts[i]
    } else {
        ts[i] + spaces(gap(each, rem, i)) + between_layout_from(ts, each, rem, i + 1)
    }
}

/// The fragments laid out left to right over exactly `space` columns, the
/// leftover blanks spread over the gaps between them, any odd columns
/// going to the leftmost gaps. No fragments: all blanks. One fragment:
/// the left alignment.
pub open spec fn between_layout(ts: Seq<Seq<char>>, space: nat) -> Seq<char>
    recommends
        total_width(ts) <= space,
{
    if ts.len() == 0 {
        spaces(space)
    } else if ts.len() == 1 {
        left_layout(ts[0], space)
    } else {
        let leftover = (space - total_width(ts)) as nat;
        let places = (ts.len() - 1) as nat;
        between_layout_from(ts, leftover / places, leftover % places, 0)
    }
}

/// Fragments `i..` laid out left to right with a gap before each fragment
/// and one more after the last.
pub open spec fn around_layout_from(ts: Seq<Seq<char>>, each: nat, rem: nat, i: int) -> Seq<char>
    decreases ts.len() - i + 1,
{
    if i < 0 || i > ts.len() {
        Seq::empty()
    } else if i == ts.len() {
        spaces(gap(each, rem, i))
    } else {
        spaces(gap(each, rem, i)) + ts[i] + around_layout_from(ts, each, rem, i + 1)
    }
}

/// Like `between_layout`, but with a gap on the outer edges as well. No
/// fragments: all blanks. One fragment: the center alignment.
pub open spec fn around_layout(ts: Seq<Seq<char>>, space: nat) -> Seq<char>
    recommends
        total_width(ts) <= space,
{
    if ts.len() == 0 {
        spaces(space)
    } else if ts.len() == 1 {
        center_layout(ts[0], space)
    } else {
        let leftover = (space - total_width(ts)) as nat;
        let places = (ts.len() + 1) as nat;
        around_layout_from(ts, leftover / places, leftover % places, 0)
    }
}

/// Total width of the fragments, or `None` as soon as it is known to
/// exceed `space`.
fn checked_total(txt: &Vec<String>, space: usize) -> (r: Option<usize>)
    ensures
        (r matches Some(t) ==> total_width(txt.deep_view()) == t && t <= space),
        r is None ==> total_width(txt.deep_view()) > space,
{
    let ghost ts = txt.deep_view();
    let mut running: usize = 0;
    let mut i: usize = 0;
    while i < txt.len()
        invariant
            i <= txt.len(),
            running <= space,
            ts == txt.deep_view(),
            total_width(ts) == running + total_width_from(ts, i as int),
        decreases txt.len() - i,
    {
        let w = display_width(txt[i].as_str());
        assert(str_width(ts[i as int]) == w);
        if w > space - running {
            assert(total_width(ts) > space);
            return None;
        }
        running = running + w;
        i = i + 1;
    }
    Some(running)
}

/// Adds blank space between the given fragments so that they fill exactly
/// `space` display columns, with no padding on the outer edges. The
/// leftover columns are divided as evenly as possible over the gaps, any
/// remainder going one column at a time to the leftmost gaps.
///
/// Returns `None` exactly when the fragments' total display width exceeds
/// `space`.
pub fn between(txt: &Vec<String>, space: usize) -> (r: Option<String>)
    ensures
        total_width(txt.deep_view()) <= space ==> (r matches Some(s) && s@ == between_layout(
            txt.deep_view(),
            space as nat,
        )),
        total_width(txt.deep_view()) > space ==> r is None,
{
    let ghost ts = txt.deep_view();
    let total = match checked_total(txt, space) {
        Some(t) => t,
        None => {
            return None;
        },
    };
    if txt.len() == 0 {
        return Some(spaces_string(space));
    }
    if txt.len() == 1 {
        assert(total_width_from(ts, 1) == 0);
        assert(total_width(ts) == str_width(ts[0]));
        return left(txt[0].as_str(), space);
    }
    let leftover = space - total;
    let places = txt.len() - 1;
    let each = leftover / places;
    let rem = leftover % places;
    let pad = spaces_string(each);
    let mut result = String::new();
    let mut remainder = rem;
    let mut i: usize = 0;
    while i < places
        invariant
            i <= places,
            places == ts.len() - 1,
            ts == txt.deep_view(),
            pad@ == spaces(each as nat),
            remainder == if i < rem {
                (rem - i) as int
            } else {
                0int
            },
            rem <= places,
            between_layout_from(ts, each as nat, rem as nat, 0) == result@ + between_layout_from(
                ts,
                each as nat,
                rem as nat,
                i as int,
            ),
        decreases places - i,
    {
        let ghost res0 = result@;
        result.append(txt[i].as_str());
        result.append(pad.as_str());
        if remainder > 0 {
            result.append(" ");
            remainder = remainder - 1;
        }
        proof {
            reveal_strlit(" ");
            assert(result@ =~= res0 + (ts[i as int] + spaces(gap(each as nat, rem as nat, i as int))));
            assert(res0 + between_layout_from(ts, each as nat, rem as nat, i as int) =~= result@
                + between_layout_from(ts, each as nat, rem as nat, i + 1));
        }
        i = i + 1;
    }
    result.append(txt[places].as_str());
    proof {
        assert(between_layout_from(ts, each as nat, rem as nat, places as int) == ts[places as int]);
        assert(result@ =~= between_layout_from(ts, each as nat, rem as nat, 0));
    }
    Some(result)
}

/// Adds blank space between the given fragments and on both outer edges so
/// that they fill exactly `space` display columns. The leftover columns
/// are divided as evenly as possible over the gaps, any remainder going
/// one column at a time to the leftmost gaps.
///
/// Returns `None` exactly when the fragments' total display width exceeds
/// `space`.
pub fn around(txt: &Vec<String>, space: usize) -> (r: Option<String>)
    requires
        txt@.len() < usize::MAX,
    ensures
        total_width(txt.deep_view()) <= space ==> (r matches Some(s) && s@ == around_layout(
            txt.deep_view(),
            space as nat,
        )),
        total_width(txt.deep_view()) > space ==> r is None,
{
    let ghost ts = txt.deep_view();
    let total = match checked_total(txt, space) {
        Some(t) => t,
        None => {
            return None;
        },
    };
    if txt.len() == 0 {
        return Some(spaces_string(space));
    }
    if txt.len() == 1 {
        assert(total_width_from(ts, 1) == 0);
        assert(total_width(ts) == str_width(ts[0]));
        return center(txt[0].as_str(), space);
    }
    let leftover = space - total;
    let places = txt.len() + 1;
    let each = leftover / places;
    let rem = leftover % places;
    let pad = spaces_string(each);
    let mut result = String::new();
    let mut remainder = rem;
    let mut i: usize = 0;
    while i < places
        invariant
            i <= places,
            places == ts.len() + 1,
            ts == txt.deep_view(),
            pad@ == spaces(each as nat),
            remainder == if i < rem {
                (rem - i) as int
            } else {
                0int
            },
            rem <= places,
            around_layout_from(ts, each as nat, rem as nat, 0) == result@ + around_layout_from(
                ts,
                each as nat,
                rem as nat,
                i as int,
            ),
        decreases places - i,
    {
        let ghost res0 = result@;
        result.append(pad.as_str());
        if remainder > 0 {
            result.append(" ");
            remainder = remainder - 1;
        }
        if i < txt.len() {
            result.append(txt[i].as_str());
            proof {
                reveal_strlit(" ");
                assert(result@ =~= res0 + (spaces(gap(each as nat, rem as nat, i as int))
                    + ts[i as int]));
                assert(res0 + around_layout_from(ts, each as nat, rem as nat, i as int) =~= result@
                    + around_layout_from(ts, each as nat, rem as nat, i + 1));
            }
        } else {
            proof {
                reveal_strlit(" ");
                assert(i == ts.len());
                assert(result@ =~= res0 + spaces(gap(each as nat, rem as nat, i as int)));
                assert(around_layout_from(ts, each as nat, rem as nat, i + 1) =~= Seq::<
                    char,
                >::empty());
                assert(res0 + around_layout_from(ts, each as nat, rem as nat, i as int) =~= result@
                    + around_layout_from(ts, each as nat, rem as nat, i + 1));
            }
        }
        i = i + 1;
    }
    proof {
        assert(result@ + around_layout_from(ts, each as nat, rem as nat, places as int) =~= result@);
        assert(result@ =~= around_layout_from(ts, each as nat, rem as nat, 0));
    }
    Some(result)
}

/// The gaps of one layout are as even as possible: no gap differs from
/// any other by more than one column, and the wider gaps come first.
pub proof fn lemma_gap_fairness(each: nat, rem: nat, i: int, j: int)
    requires
        0 <= i <= j,
    ensures
        gap(each, rem, j) <= gap(each, rem, i) <= gap(each, rem, j) + 1,
{
}

/// With no fragments, `between` and `around` lay out nothing but blanks.
pub proof fn lemma_between_layout_empty(space: nat)
    ensures
        between_layout(Seq::empty(), space) == spaces(space),
{
}

pub proof fn lemma_around_layout_empty(space: nat)
    ensures
        around_layout(Seq::empty(), space) == spaces(space),
{
}

/// With a single fragment, `between` degenerates to the left alignment.
pub proof fn lemma_between_layout_single(t: Seq<char>, space: nat)
    ensures
        between_layout(seq![t], space) == left_layout(t, space),
{
}

/// With a single fragment, `around` degenerates to the center alignment.
pub proof fn lemma_around_layout_single(t: Seq<char>, space: nat)
    ensures
        around_layout(seq![t], space) == center_layout(t, space),
{
}

/// The gaps over indices `[i, n)` fill `each` columns apiece plus one
/// extra column for each index below `rem`.
proof fn lemma_gaps_width_sum(each: nat, rem: nat, i: int, n: int)
    requires
        0 <= i <= n,
    ensures
        gaps_width(each, rem, i, n) == each * (n - i) + if rem <= i {
            0int
        } else if rem >= n {
            n - i
        } else {
            rem - i
        },
    decreases n - i,
{
    if i < n {
        lemma_gaps_width_sum(each, rem, i + 1, n);
        assert(each * (n - i) == each * (n - i - 1) + each) by (nonlinear_arith)
            requires
                i < n,
        ;
    } else {
        assert(each * 0 == 0) by (nonlinear_arith);
    }
}

/// Width of the partial `between` layout: the remaining fragments plus
/// the remaining gaps.
proof fn lemma_between_layout_from_width(ts: Seq<Seq<char>>, each: nat, rem: nat, i: int)
    requires
        0 <= i < ts.len(),
    ensures
        str_width(between_layout_from(ts, each, rem, i)) == total_width_from(ts, i) + gaps_width(
            each,
            rem,
            i,
            ts.len() - 1,
        ),
    decreases ts.len() - i,
{
    if i == ts.len() - 1 {
        assert(total_width_from(ts, i + 1) == 0);
    } else {
        lemma_between_layout_from_width(ts, each, rem, i + 1);
        lemma_str_width_concat(
            ts[i] + spaces(gap(each, rem, i)),
            between_layout_from(ts, each, rem, i + 1),
        );
        lemma_str_width_concat(ts[i], spaces(gap(each, rem, i)));
        lemma_spaces_width(gap(each, rem, i));
    }
}

/// Width of the partial `around` layout: the remaining fragments plus the
/// remaining gaps, final gap included.
proof fn lemma_around_layout_from_width(ts: Seq<Seq<char>>, each: nat, rem: nat, i: int)
    requires
        0 <= i <= ts.len(),
    ensures
        str_width(around_layout_from(ts, each, rem, i)) == total_width_from(ts, i) + gaps_width(
            each,
            rem,
            i,
            ts.len() + 1int,
        ),
    decreases ts.len() - i + 1,
{
    if i == ts.len() {
        lemma_spaces_width(gap(each, rem, i));
        assert(gaps_width(each, rem, i + 1, ts.len() + 1int) == 0);
    } else {
        lemma_around_layout_from_width(ts, each, rem, i + 1);
        lemma_str_width_concat(
            spaces(gap(each, rem, i)) + ts[i],
            around_layout_from(ts, each, rem, i + 1),
        );
        lemma_str_width_concat(spaces(gap(each, rem, i)), ts[i]);
        lemma_spaces_width(gap(each, rem, i));
    }
}

/// A `between` layout of fragments that fit is exactly `space` columns
/// wide.
pub proof fn lemma_between_layout_width(ts: Seq<Seq<char>>, space: nat)
    requires
        total_width(ts) <= space,
    ensures
        str_width(between_layout(ts, space)) == space,
{
    if ts.len() == 0 {
        lemma_spaces_width(space);
    } else if ts.len() == 1 {
        assert(total_width_from(ts, 1) == 0);
        lemma_left_layout_width(ts[0], space);
    } else {
        let leftover = (space - total_width(ts)) as nat;
        let places = (ts.len() - 1) as nat;
        let each = leftover / places;
        let rem = leftover % places;
        vstd::arithmetic::div_mod::lemma_fundamental_div_mod(leftover as int, places as int);
        vstd::arithmetic::div_mod::lemma_mod_division_less_than_divisor(
            leftover as int,
            places as int,
        );
        lemma_between_layout_from_width(ts, each, rem, 0);
        lemma_gaps_width_sum(each, rem, 0, places as int);
        assert((places as int) * (each as int) == (each as int) * (places as int))
            by (nonlinear_arith);
    }
}

/// An `around` layout of fragments that fit is exactly `space` columns
/// wide.
pub proof fn lemma_around_layout_width(ts: Seq<Seq<char>>, space: nat)
    requires
        total_width(ts) <= space,
    ensures
        str_width(around_layout(ts, space)) == space,
{
    if ts.len() == 0 {
        lemma_spaces_width(space);
    } else if ts.len() == 1 {
        assert(total_width_from(ts, 1) == 0);
        lemma_center_layout_width(ts[0], space);
    } else {
        let leftover = (space - total_width(ts)) as nat;
        let places = (ts.len() + 1) as nat;
        let each = leftover / places;
        let rem = leftover % places;
        vstd::arithmetic::div_mod::lemma_fundamental_div_mod(leftover as int, places as int);
        vstd::arithmetic::div_mod::lemma_mod_division_less_than_divisor(
            leftover as int,
            places as int,
        );
        lemma_around_layout_from_width(ts, each, rem, 0);
        lemma_gaps_width_sum(each, rem, 0, places as int);
        assert((places as int) * (each as int) == (each as int) * (places as int))
            by (nonlinear_arith);
    }
}

} // verus!
