//! The elevation colour ramp: an ordered list of stops, scanned for the first
//! pair that brackets a value.

use vstd::prelude::*;

verus! {

/// A colour, one scalar per channel.
#[derive(Debug, Clone, Copy, PartialEq)]
pub struct Rgb<T> {
    pub r: T,
    pub g: T,
    pub b: T,
}

/// One stop of a ramp: from `threshold` on, the ramp leaves `color`.
#[derive(Debug, Clone, Copy, PartialEq)]
pub struct ColorStop<T> {
    pub threshold: T,
    pub color: Rgb<T>,
}

/// `within` and `mix` may be called on any arguments.
pub open spec fn ramp_ready<T, W: Fn(T, T, T) -> bool, M: Fn(ColorStop<T>, ColorStop<T>, T) -> Rgb<T>>(
    within: W,
    mix: M,
) -> bool {
    &&& forall|lo: T, value: T, hi: T| call_requires(within, (lo, value, hi))
    &&& forall|from: ColorStop<T>, to: ColorStop<T>, value: T| call_requires(mix, (from, to, value))
}

/// `within` answers `found` when asked whether pair `j` of `stops`, the stops
/// `j` and `j + 1`, brackets `value`.
pub open spec fn pair_answers<T, W: Fn(T, T, T) -> bool>(
    stops: Seq<ColorStop<T>>,
    within: W,
    value: T,
    j: int,
    found: bool,
) -> bool {
    call_ensures(within, (stops[j].threshold, value, stops[j + 1].threshold), found)
}

/// None of the first `n` adjacent pairs of `stops` brackets `value`.
pub open spec fn none_brackets<T, W: Fn(T, T, T) -> bool>(
    stops: Seq<ColorStop<T>>,
    within: W,
    value: T,
    n: int,
) -> bool {
    forall|j: int| 0 <= j < n ==> #[trigger] pair_answers(stops, within, value, j, false)
}

/// Pair `i` of `stops` is the first that brackets `value`, and `color` is what
/// `mix` makes of that pair.
pub open spec fn is_mixed_at<T, W: Fn(T, T, T) -> bool, M: Fn(ColorStop<T>, ColorStop<T>, T) -> Rgb<T>>(
    stops: Seq<ColorStop<T>>,
    within: W,
    mix: M,
    value: T,
    i: int,
    color: Rgb<T>,
) -> bool {
    &&& 0 <= i < stops.len() - 1
    &&& none_brackets(stops, within, value, i)
    &&& pair_answers(stops, within, value, i, true)
    &&& call_ensures(mix, (stops[i], stops[i + 1], value), color)
}

/// `color` is the ramp's colour for `value`: the mix of the first adjacent pair
/// of stops that brackets `value`, or, where no pair does, the colour of the
/// last stop. A value below the first stop therefore gets the last colour,
/// not the first.
pub open spec fn is_ramp_color<
    T,
    W: Fn(T, T, T) -> bool,
    M: Fn(ColorStop<T>, ColorStop<T>, T) -> Rgb<T>,
>(stops: Seq<ColorStop<T>>, within: W, mix: M, value: T, color: Rgb<T>) -> bool {
    ||| exists|i: int| #[trigger] is_mixed_at(stops, within, mix, value, i, color)
    ||| {
        &&& none_brackets(stops, within, value, stops.len() - 1)
        &&& color == stops[stops.len() - 1].color
    }
}

/// Looks `normalized_elevation` up in the ramp `stops`.
///
/// `within(lo, value, hi)` decides whether `value` lies between two
/// thresholds, ends included; `mix(from, to, value)` blends the colours of two
/// stops for a value between their thresholds.
pub fn get_color_for_elevation<
    T: Copy,
    W: Fn(T, T, T) -> bool,
    M: Fn(ColorStop<T>, ColorStop<T>, T) -> Rgb<T>,
>(normalized_elevation: T, stops: &[ColorStop<T>], within: &W, mix: &M) -> (color: Rgb<T>)
    requires
        stops@.len() >= 1,
        ramp_ready(*within, *mix),
    ensures
        is_ramp_color(stops@, *within, *mix, normalized_elevation, color),
{
    let last: usize = stops.len() - 1;
    let mut i: usize = 0;
    while i < last
        invariant
            last == stops@.len() - 1,
            ramp_ready(*within, *mix),
            i <= last,
            none_brackets(stops@, *within, normalized_elevation, i as int),
        decreases last - i,
    {
        let stop1 = stops[i];
        let stop2 = stops[i + 1];
        if within(stop1.threshold, normalized_elevation, stop2.threshold) {
            let color = mix(stop1, stop2, normalized_elevation);
            assert(is_mixed_at(stops@, *within, *mix, normalized_elevation, i as int, color));
            return color;
        }
        i += 1;
    }
    stops[last].color
}

/// `within` gives one answer to each question about a pair of `stops` and
/// `value`.
pub open spec fn within_decides<T, W: Fn(T, T, T) -> bool>(
    stops: Seq<ColorStop<T>>,
    within: W,
    value: T,
) -> bool {
    forall|j: int, a: bool, b: bool|
        #[trigger] pair_answers(stops, within, value, j, a) && #[trigger] pair_answers(
            stops,
            within,
            value,
            j,
            b,
        ) ==> a == b
}

/// The first pair that brackets settles the colour: where pair `i` brackets
/// `value` and none before it does, the ramp's colour is the mix of pair `i`.
pub proof fn lemma_first_bracket_wins<
    T,
    W: Fn(T, T, T) -> bool,
    M: Fn(ColorStop<T>, ColorStop<T>, T) -> Rgb<T>,
>(stops: Seq<ColorStop<T>>, within: W, mix: M, value: T, color: Rgb<T>, i: int)
    requires
        is_ramp_color(stops, within, mix, value, color),
        within_decides(stops, within, value),
        0 <= i < stops.len() - 1,
        none_brackets(stops, within, value, i),
        pair_answers(stops, within, value, i, true),
    ensures
        call_ensures(mix, (stops[i], stops[i + 1], value), color),
{
    if exists|k: int| #[trigger] is_mixed_at(stops, within, mix, value, k, color) {
        let k = choose|k: int| #[trigger] is_mixed_at(stops, within, mix, value, k, color);
        if k < i {
            assert(pair_answers(stops, within, value, k, false));
        } else if k > i {
            assert(pair_answers(stops, within, value, i, false));
        }
    } else {
        assert(pair_answers(stops, within, value, i, false));
    }
}

/// No fall-back to the first stop: where no pair brackets `value`, be it
/// below every threshold or above, the ramp's colour is that of the last
/// stop.
pub proof fn lemma_unbracketed_takes_last<
    T,
    W: Fn(T, T, T) -> bool,
    M: Fn(ColorStop<T>, ColorStop<T>, T) -> Rgb<T>,
>(stops: Seq<ColorStop<T>>, within: W, mix: M, value: T, color: Rgb<T>)
    requires
        is_ramp_color(stops, within, mix, value, color),
        within_decides(stops, within, value),
        none_brackets(stops, within, value, stops.len() - 1),
    ensures
        color == stops[stops.len() - 1].color,
{
    if exists|k: int| #[trigger] is_mixed_at(stops, within, mix, value, k, color) {
        let k = choose|k: int| #[trigger] is_mixed_at(stops, within, mix, value, k, color);
        assert(pair_answers(stops, within, value, k, false));
    }
}

/// `within` is a function: it has one answer for each choice of arguments.
pub open spec fn within_is_function<T, W: Fn(T, T, T) -> bool>(within: W) -> bool {
    forall|lo: T, value: T, hi: T, a: bool, b: bool|
        #[trigger] call_ensures(within, (lo, value, hi), a) && #[trigger] call_ensures(
            within,
            (lo, value, hi),
            b,
        ) ==> a == b
}

/// `mix` is a function: it has one result for each choice of arguments.
pub open spec fn mix_is_function<T, M: Fn(ColorStop<T>, ColorStop<T>, T) -> Rgb<T>>(mix: M) -> bool {
    forall|from: ColorStop<T>, to: ColorStop<T>, value: T, a: Rgb<T>, b: Rgb<T>|
        #[trigger] call_ensures(mix, (from, to, value), a) && #[trigger] call_ensures(
            mix,
            (from, to, value),
            b,
        ) ==> a == b
}

/// Determinism: with a `within` and a `mix` that are functions, a ramp has one
/// colour for each value.
pub proof fn lemma_ramp_color_unique<
    T,
    W: Fn(T, T, T) -> bool,
    M: Fn(ColorStop<T>, ColorStop<T>, T) -> Rgb<T>,
>(stops: Seq<ColorStop<T>>, within: W, mix: M, value: T, first: Rgb<T>, second: Rgb<T>)
    requires
        within_is_function(within),
        mix_is_function(mix),
        is_ramp_color(stops, within, mix, value, first),
        is_ramp_color(stops, within, mix, value, second),
    ensures
        first == second,
{
    if exists|i: int| #[trigger] is_mixed_at(stops, within, mix, value, i, first) {
        let i = choose|i: int| #[trigger] is_mixed_at(stops, within, mix, value, i, first);
        lemma_first_bracket_wins(stops, within, mix, value, second, i);
    } else {
        lemma_unbracketed_takes_last(stops, within, mix, value, second);
    }
}

/// The unit of the terrain table: a field `n` of it stands for `n / 100`.
pub const COLOR_SCALE: u8 = 100;

/// The terrain gradient, thresholds and channels in hundredths: pale blue at
/// the bottom, two greens, two browns, grey, and white at the peaks.
pub open spec fn terrain_table() -> Seq<ColorStop<u8>> {
    seq![
        (ColorStop { threshold: 0, color: Rgb { r: 60, g: 60, b: 95 } }),
        (ColorStop { threshold: 10, color: Rgb { r: 40, g: 80, b: 40 } }),
        (ColorStop { threshold: 30, color: Rgb { r: 20, g: 60, b: 20 } }),
        (ColorStop { threshold: 50, color: Rgb { r: 80, g: 70, b: 50 } }),
        (ColorStop { threshold: 70, color: Rgb { r: 70, g: 55, b: 40 } }),
        (ColorStop { threshold: 90, color: Rgb { r: 75, g: 75, b: 75 } }),
        (ColorStop { threshold: 100, color: Rgb { r: 100, g: 100, b: 100 } }),
    ]
}

/// The stops of the terrain gradient, lowest first.
pub fn terrain_colors() -> (stops: Vec<ColorStop<u8>>)
    ensures
        stops@ == terrain_table(),
{
    let stops = vec![
        ColorStop { threshold: 0, color: Rgb { r: 60, g: 60, b: 95 } },
        ColorStop { threshold: 10, color: Rgb { r: 40, g: 80, b: 40 } },
        ColorStop { threshold: 30, color: Rgb { r: 20, g: 60, b: 20 } },
        ColorStop { threshold: 50, color: Rgb { r: 80, g: 70, b: 50 } },
        ColorStop { threshold: 70, color: Rgb { r: 70, g: 55, b: 40 } },
        ColorStop { threshold: 90, color: Rgb { r: 75, g: 75, b: 75 } },
        ColorStop { threshold: 100, color: Rgb { r: 100, g: 100, b: 100 } },
    ];
    stops
}

/// The terrain gradient has seven stops, spans the whole range from zero to
/// one, and its thresholds rise strictly; no channel exceeds one.
pub proof fn lemma_terrain_table_ordered()
    ensures
        terrain_table().len() == 7,
        terrain_table()[0].threshold == 0,
        terrain_table()[6].threshold == COLOR_SCALE,
        forall|i: int, j: int|
            0 <= i < j < 7 ==> (#[trigger] terrain_table()[i]).threshold < (
            #[trigger] terrain_table()[j]).threshold,
        forall|i: int|
            0 <= i < 7 ==> {
                let c = (#[trigger] terrain_table()[i]).color;
                c.r <= COLOR_SCALE && c.g <= COLOR_SCALE && c.b <= COLOR_SCALE
            },
{
}

} // verus!
