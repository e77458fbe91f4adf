//! The directory layouts of four tile caches: how a tile's `x` and `y` are cut
//! into path segments, and how the segments make a path.

use vstd::prelude::*;
use vstd::string::StringExecFns;
use crate::text::{decimal_digits, decimal_string, zero_padded};

verus! {

/// The segments of the TileCache layout: `x` in three groups of three digits
/// (millions, thousands, units), then `y` in the same way.
pub open spec fn tc_parts(x: u32, y: u32) -> Seq<Seq<char>> {
    seq![
        zero_padded((x / 1_000_000) as nat, 3),
        zero_padded(((x / 1_000) % 1_000) as nat, 3),
        zero_padded((x % 1_000) as nat, 3),
        zero_padded((y / 1_000_000) as nat, 3),
        zero_padded(((y / 1_000) % 1_000) as nat, 3),
        zero_padded((y % 1_000) as nat, 3),
    ]
}

/// The segments of the MapProxy layout: `x` and `y` in two groups of four
/// digits each.
pub open spec fn mp_parts(x: u32, y: u32) -> Seq<Seq<char>> {
    seq![
        zero_padded((x / 10_000) as nat, 4),
        zero_padded((x % 10_000) as nat, 4),
        zero_padded((y / 10_000) as nat, 4),
        zero_padded((y % 10_000) as nat, 4),
    ]
}

/// The segments of the TileStash layout: `x` and `y` in two groups of three
/// digits each.
pub open spec fn ts_parts(x: u32, y: u32) -> Seq<Seq<char>> {
    seq![
        zero_padded((x / 1_000) as nat, 3),
        zero_padded((x % 1_000) as nat, 3),
        zero_padded((y / 1_000) as nat, 3),
        zero_padded((y % 1_000) as nat, 3),
    ]
}

/// One byte of the mod_tile layout: four bits of `x` above four bits of `y`,
/// both taken after `x` and `y` were divided by `unit`, a power of sixteen.
pub open spec fn nibble_pair(x: u32, y: u32, unit: u32) -> nat {
    (((x / unit) % 16) * 16 + (y / unit) % 16) as nat
}

/// The segments of the mod_tile layout: five bytes in decimal, the one made
/// of the highest of the twenty bits first.
pub open spec fn mt_parts(x: u32, y: u32) -> Seq<Seq<char>> {
    seq![
        decimal_digits(nibble_pair(x, y, 65_536)),
        decimal_digits(nibble_pair(x, y, 4_096)),
        decimal_digits(nibble_pair(x, y, 256)),
        decimal_digits(nibble_pair(x, y, 16)),
        decimal_digits(nibble_pair(x, y, 1)),
    ]
}

/// `head` followed by each of `parts` behind a slash.
pub open spec fn with_segments(head: Seq<char>, parts: Seq<Seq<char>>) -> Seq<char>
    decreases parts.len(),
{
    if parts.len() == 0 {
        head
    } else {
        with_segments(head, parts.drop_last()) + seq!['/'] + parts.last()
    }
}

/// The path of a tile in a layout: the zoom, the layout's segments, and the
/// file extension behind a dot.
pub open spec fn dir_path(zoom: u8, parts: Seq<Seq<char>>, ext: Seq<char>) -> Seq<char> {
    with_segments(decimal_digits(zoom as nat), parts) + seq!['.'] + ext
}

/// The texts of an array of strings.
pub open spec fn texts<const N: usize>(parts: [String; N]) -> Seq<Seq<char>> {
    parts@.map_values(|s: String| s@)
}

/// Convert x & y to TileCache (tc) directory parts.
pub fn xy_to_tc(x: u32, y: u32) -> (r: [String; 6])
    ensures
        texts(r) == tc_parts(x, y),
{
    [
        decimal_string(x / 1_000_000, 3),
        decimal_string((x / 1_000) % 1_000, 3),
        decimal_string(x % 1_000, 3),
        decimal_string(y / 1_000_000, 3),
        decimal_string((y / 1_000) % 1_000, 3),
        decimal_string(y % 1_000, 3),
    ]
}

/// Convert x & y to MapProxy (mp) directory parts.
pub fn xy_to_mp(x: u32, y: u32) -> (r: [String; 4])
    ensures
        texts(r) == mp_parts(x, y),
{
    [
        decimal_string(x / 10_000, 4),
        decimal_string(x % 10_000, 4),
        decimal_string(y / 10_000, 4),
        decimal_string(y % 10_000, 4),
    ]
}

/// Convert x & y to TileStash (ts) safe directory parts.
pub fn xy_to_ts(x: u32, y: u32) -> (r: [String; 4])
    ensures
        texts(r) == ts_parts(x, y),
{
    [
        decimal_string(x / 1_000, 3),
        decimal_string(x % 1_000, 3),
        decimal_string(y / 1_000, 3),
        decimal_string(y % 1_000, 3),
    ]
}

/// Four bits of `x / unit` above four bits of `y / unit`.
fn pack_nibbles(x: u32, y: u32, unit: u32) -> (r: u32)
    requires
        unit > 0,
    ensures
        r as nat == nibble_pair(x, y, unit),
        r < 256,
{
    ((x / unit) % 16) * 16 + (y / unit) % 16
}

/// Convert x & y to mod_tile metatile directory parts.
pub fn xy_to_mt(x: u32, y: u32) -> (r: [String; 5])
    ensures
        texts(r) == mt_parts(x, y),
{
    [
        decimal_string(pack_nibbles(x, y, 65_536), 0),
        decimal_string(pack_nibbles(x, y, 4_096), 0),
        decimal_string(pack_nibbles(x, y, 256), 0),
        decimal_string(pack_nibbles(x, y, 16), 0),
        decimal_string(pack_nibbles(x, y, 1), 0),
    ]
}

/// The zoom followed by each segment behind a slash.
pub fn join_segments<const N: usize>(zoom: u8, parts: &[String; N]) -> (r: String)
    ensures
        r@ == with_segments(decimal_digits(zoom as nat), texts(*parts)),
{
    let mut out = decimal_string(zoom as u32, 0);
    let mut i: usize = 0;
    while i < N
        invariant
            i <= N,
            texts(*parts).len() == N,
            out@ == with_segments(decimal_digits(zoom as nat), texts(*parts).take(i as int)),
        decreases N - i,
    {
        proof {
            reveal_strlit("/");
            let next = texts(*parts).take(i + 1);
            assert(next.drop_last() =~= texts(*parts).take(i as int));
        }
        out.append("/");
        out.append(parts[i].as_str());
        i = i + 1;
    }
    proof {
        assert(texts(*parts).take(N as int) =~= texts(*parts));
    }
    out
}

/// The path `zoom/<segments>.<ext>`.
pub fn join_path<const N: usize>(zoom: u8, parts: &[String; N], ext: &str) -> (r: String)
    ensures
        r@ == dir_path(zoom, texts(*parts), ext@),
{
    let mut out = join_segments(zoom, parts);
    proof {
        reveal_strlit(".");
    }
    out.append(".");
    out.append(ext);
    out
}

} // verus!
