//! Color utilities: the color-distance metric used for color replacement,
//! and the table of named colors.

use vstd::prelude::*;
use vstd::string::StringSliceAdditionalSpecFns;

use crate::text::bytes_eq;

verus! {

/// An RGB triple.
#[derive(Clone, Copy, PartialEq, Eq, Structural, Debug)]
pub struct Rgb {
    pub r: u8,
    pub g: u8,
    pub b: u8,
}

pub open spec fn abs_diff(a: u8, b: u8) -> int {
    if a >= b {
        a - b
    } else {
        b - a
    }
}

/// The distance between two colors: the mean of the per-channel absolute
/// differences (one third of the Manhattan distance), always in [0, 255].
pub open spec fn spec_color_distance(c1: Rgb, c2: Rgb) -> u8 {
    ((abs_diff(c1.r, c2.r) + abs_diff(c1.g, c2.g) + abs_diff(c1.b, c2.b)) / 3) as u8
}

pub fn color_distance(c1: Rgb, c2: Rgb) -> (d: u8)
    ensures
        d == spec_color_distance(c1, c2),
{
    let dr: u16 = if c1.r >= c2.r {
        (c1.r - c2.r) as u16
    } else {
        (c2.r - c1.r) as u16
    };
    let dg: u16 = if c1.g >= c2.g {
        (c1.g - c2.g) as u16
    } else {
        (c2.g - c1.g) as u16
    };
    let db: u16 = if c1.b >= c2.b {
        (c1.b - c2.b) as u16
    } else {
        (c2.b - c1.b) as u16
    };
    ((dr + dg + db) / 3) as u8
}

/// The color a canonical name stands for, over the cleaned bytes of the
/// name.  Names are matched in the order the table lists them.
pub open spec fn spec_color_of(name: Seq<u8>) -> Option<Rgb> {
    if name == "red".spec_bytes() {
        Some(Rgb { r: 255, g: 0, b: 0 })
    } else if name == "green".spec_bytes() {
        Some(Rgb { r: 0, g: 255, b: 0 })
    } else if name == "blue".spec_bytes() {
        Some(Rgb { r: 0, g: 0, b: 255 })
    } else if name == "yellow".spec_bytes() {
        Some(Rgb { r: 255, g: 255, b: 0 })
    } else if name == "cyan".spec_bytes() {
        Some(Rgb { r: 0, g: 255, b: 255 })
    } else if name == "magenta".spec_bytes() {
        Some(Rgb { r: 255, g: 0, b: 255 })
    } else if name == "white".spec_bytes() {
        Some(Rgb { r: 255, g: 255, b: 255 })
    } else if name == "black".spec_bytes() {
        Some(Rgb { r: 0, g: 0, b: 0 })
    } else {
        None
    }
}

/// The immutable table mapping canonical color names to RGB triples.
pub struct ColorMap {
    pub entries: Vec<(Vec<u8>, Rgb)>,
}

impl ColorMap {
    /// The table holds exactly the canonical names, in order.
    pub open spec fn wf(self) -> bool {
        self.entries@.len() == 8 && self.entries@[0].0@ == "red".spec_bytes()
            && self.entries@[0].1 == (Rgb { r: 255u8, g: 0u8, b: 0u8 }) && self.entries@[1].0@
            == "green".spec_bytes() && self.entries@[1].1 == (Rgb { r: 0u8, g: 255u8, b: 0u8 })
            && self.entries@[2].0@ == "blue".spec_bytes() && self.entries@[2].1 == (Rgb {
            r: 0u8,
            g: 0u8,
            b: 255u8,
        }) && self.entries@[3].0@ == "yellow".spec_bytes() && self.entries@[3].1 == (Rgb {
            r: 255u8,
            g: 255u8,
            b: 0u8,
        }) && self.entries@[4].0@ == "cyan".spec_bytes() && self.entries@[4].1 == (Rgb {
            r: 0u8,
            g: 255u8,
            b: 255u8,
        }) && self.entries@[5].0@ == "magenta".spec_bytes() && self.entries@[5].1 == (Rgb {
            r: 255u8,
            g: 0u8,
            b: 255u8,
        }) && self.entries@[6].0@ == "white".spec_bytes() && self.entries@[6].1 == (Rgb {
            r: 255u8,
            g: 255u8,
            b: 255u8,
        }) && self.entries@[7].0@ == "black".spec_bytes() && self.entries@[7].1 == (Rgb {
            r: 0u8,
            g: 0u8,
            b: 0u8,
        })
    }

    /// Look a name up, matching the bytes of the name exactly.
    pub fn get(&self, name: &[u8]) -> (r: Option<Rgb>)
        requires
            self.wf(),
        ensures
            r == spec_color_of(name@),
    {
        let mut i: usize = 0;
        while i < self.entries.len()
            invariant
                self.wf(),
                i <= self.entries@.len(),
                forall|j: int| 0 <= j < i ==> name@ != self.entries@[j].0@,
            decreases self.entries@.len() - i,
        {
            let e = &self.entries[i];
            if bytes_eq(e.0.as_slice(), name) {
                return Some(e.1);
            }
            i = i + 1;
        }
        None
    }
}

fn push_entry(entries: &mut Vec<(Vec<u8>, Rgb)>, name: &str, color: Rgb)
    ensures
        final(entries)@.len() == old(entries)@.len() + 1,
        forall|j: int| 0 <= j < old(entries)@.len() ==> final(entries)@[j] == old(entries)@[j],
        final(entries)@.last().0@ == name.spec_bytes(),
        final(entries)@.last().1 == color,
{
    let key = crate::text::bytes_to_vec(name.as_bytes());
    entries.push((key, color));
}

/// Build the canonical color table.
pub fn create_color_map() -> (m: ColorMap)
    ensures
        m.wf(),
{
    let mut entries: Vec<(Vec<u8>, Rgb)> = Vec::new();
    push_entry(&mut entries, "red", Rgb { r: 255, g: 0, b: 0 });
    push_entry(&mut entries, "green", Rgb { r: 0, g: 255, b: 0 });
    push_entry(&mut entries, "blue", Rgb { r: 0, g: 0, b: 255 });
    push_entry(&mut entries, "yellow", Rgb { r: 255, g: 255, b: 0 });
    push_entry(&mut entries, "cyan", Rgb { r: 0, g: 255, b: 255 });
    push_entry(&mut entries, "magenta", Rgb { r: 255, g: 0, b: 255 });
    push_entry(&mut entries, "white", Rgb { r: 255, g: 255, b: 255 });
    push_entry(&mut entries, "black", Rgb { r: 0, g: 0, b: 0 });
    ColorMap { entries }
}

} // verus!
