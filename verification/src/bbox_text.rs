//! The text form of a bounding box: four numbers, `minlon minlat maxlon
//! maxlat`, separated by spaces or by commas.

use vstd::prelude::*;
use crate::text::{captures, regex_captures};

verus! {

/// Four numbers separated by single spaces, each of up to three digits
/// before and up to ten behind the point.
pub const BBOX_SPACE_PATTERN: &'static str =
    "^(?P<minlon>-?[0-9]{1,3}(\\.[0-9]{1,10})?) (?P<minlat>-?[0-9]{1,3}(\\.[0-9]{1,10})?) (?P<maxlon>-?[0-9]{1,3}(\\.[0-9]{1,10})?) (?P<maxlat>-?[0-9]{1,3}(\\.[0-9]{1,10})?)$";

/// The same four numbers separated by commas.
pub const BBOX_COMMA_PATTERN: &'static str =
    "^(?P<minlon>-?[0-9]{1,3}(\\.[0-9]{1,10})?),(?P<minlat>-?[0-9]{1,3}(\\.[0-9]{1,10})?),(?P<maxlon>-?[0-9]{1,3}(\\.[0-9]{1,10})?),(?P<maxlat>-?[0-9]{1,3}(\\.[0-9]{1,10})?)$";

/// The four sides of a bounding box as they were written.
pub struct BBoxText {
    /// The northern latitude: the fourth number.
    pub top: String,
    /// The western longitude: the first number.
    pub left: String,
    /// The southern latitude: the second number.
    pub bottom: String,
    /// The eastern longitude: the third number.
    pub right: String,
}

/// The sides of a bounding box as contracts speak of them.
pub struct BBoxSides {
    pub top: Seq<char>,
    pub left: Seq<char>,
    pub bottom: Seq<char>,
    pub right: Seq<char>,
}

impl View for BBoxText {
    type V = BBoxSides;

    open spec fn view(&self) -> BBoxSides {
        BBoxSides { top: self.top@, left: self.left@, bottom: self.bottom@, right: self.right@ }
    }
}

/// The sides that the capture groups of a match write. The four numbers are
/// the groups 1, 3, 5 and 7; the even groups between are their fractions.
pub open spec fn sides_of_groups(groups: Option<Seq<Option<Seq<char>>>>) -> Option<BBoxSides> {
    match groups {
        None => None,
        Some(g) => if g.len() > 7 && g[1] is Some && g[3] is Some && g[5] is Some && g[7] is Some {
            Some(
                BBoxSides {
                    top: g[7].unwrap(),
                    left: g[1].unwrap(),
                    bottom: g[3].unwrap(),
                    right: g[5].unwrap(),
                },
            )
        } else {
            None
        },
    }
}

/// The sides that a text writes: those of its match with the space form,
/// or, where that does not match, with the comma form.
pub open spec fn sides_of_text(text: Seq<char>) -> Option<BBoxSides> {
    if regex_captures(BBOX_SPACE_PATTERN@, text) is Some {
        sides_of_groups(regex_captures(BBOX_SPACE_PATTERN@, text))
    } else {
        sides_of_groups(regex_captures(BBOX_COMMA_PATTERN@, text))
    }
}

/// Whether `r` is the outcome `expected`.
pub open spec fn sides_are(r: Option<BBoxText>, expected: Option<BBoxSides>) -> bool {
    match r {
        Some(t) => expected == Some(t@),
        None => expected is None,
    }
}

/// The sides that the capture groups of a match write; nothing where there
/// was no match or one of the four numbers is missing.
pub fn bbox_text_from_captures(groups: &Option<Vec<Option<String>>>) -> (r: Option<BBoxText>)
    ensures
        sides_are(r, sides_of_groups(groups.deep_view())),
{
    match groups {
        None => None,
        Some(g) => {
            if g.len() <= 7 {
                return None;
            }
            match (&g[1], &g[3], &g[5], &g[7]) {
                (Some(minlon), Some(minlat), Some(maxlon), Some(maxlat)) => Some(
                    BBoxText {
                        top: maxlat.clone(),
                        left: minlon.clone(),
                        bottom: minlat.clone(),
                        right: maxlon.clone(),
                    },
                ),
                _ => None,
            }
        },
    }
}

/// Takes the text form of a bounding box apart into its four sides, each
/// still as text.
pub fn bbox_text(text: &str) -> (r: Option<BBoxText>)
    ensures
        sides_are(r, sides_of_text(text@)),
{
    let spaced = captures(BBOX_SPACE_PATTERN, text);
    if spaced.is_some() {
        bbox_text_from_captures(&spaced)
    } else {
        let comma = captures(BBOX_COMMA_PATTERN, text);
        bbox_text_from_captures(&comma)
    }
}

} // verus!
