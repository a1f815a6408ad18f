//! The colour table and the quantizer that maps a true-colour value to the
//! nearest entry of a table.

use vstd::prelude::*;

verus! {

/// Number of entries in the built-in colour table.
pub const PALETTE_SIZE: usize = 76;

/// The built-in colour table: red, green and blue of each entry. A colour
/// everywhere else is an index into this table.
pub const PALETTE: [[u8; 3]; 76] = [
    [9, 9, 14],
    [26, 28, 38],
    [60, 72, 81],
    [97, 112, 119],
    [153, 165, 167],
    [203, 210, 217],
    [255, 255, 255],
    [33, 27, 33],
    [107, 88, 83],
    [171, 104, 76],
    [206, 166, 95],
    [231, 212, 148],
    [249, 243, 192],
    [36, 19, 29],
    [64, 40, 48],
    [94, 66, 60],
    [128, 99, 82],
    [161, 148, 119],
    [189, 187, 147],
    [76, 7, 23],
    [129, 11, 11],
    [168, 43, 18],
    [212, 92, 29],
    [227, 133, 36],
    [235, 171, 76],
    [241, 194, 86],
    [246, 221, 122],
    [3, 18, 31],
    [15, 52, 63],
    [26, 85, 86],
    [44, 125, 99],
    [75, 162, 69],
    [148, 204, 71],
    [234, 242, 87],
    [2, 16, 23],
    [11, 59, 68],
    [23, 117, 110],
    [48, 163, 135],
    [80, 205, 144],
    [106, 226, 145],
    [201, 232, 161],
    [23, 9, 46],
    [21, 21, 86],
    [17, 63, 130],
    [52, 102, 176],
    [113, 181, 219],
    [158, 228, 239],
    [209, 251, 240],
    [38, 22, 70],
    [85, 45, 114],
    [136, 75, 147],
    [172, 108, 162],
    [197, 143, 170],
    [223, 178, 198],
    [237, 209, 214],
    [20, 3, 51],
    [70, 21, 101],
    [123, 37, 132],
    [169, 75, 132],
    [208, 116, 130],
    [222, 158, 140],
    [123, 13, 105],
    [164, 16, 87],
    [195, 67, 92],
    [225, 118, 118],
    [243, 191, 173],
    [60, 19, 59],
    [107, 46, 90],
    [170, 85, 124],
    [202, 134, 122],
    [242, 205, 170],
    [250, 248, 219],
    [138, 64, 40],
    [179, 121, 77],
    [218, 181, 128],
    [243, 231, 168],
];

/// How far apart two colours are taken to be.
#[derive(Debug, Copy, Clone, PartialEq, Eq, Structural)]
pub enum Metric {
    /// Luma-weighted squared error, `0.299 dr^2 + 0.587 dg^2 + 0.114 db^2`,
    /// counted in thousandths.
    WeightedSquared,
    /// Mean absolute error, `(|dr| + |dg| + |db|) / 3`, counted in thirds.
    MeanAbsolute,
}

/// The absolute difference of two channel values.
pub open spec fn channel_gap(a: u8, b: u8) -> int {
    if a >= b {
        a - b
    } else {
        b - a
    }
}

/// The luma-weighted squared error between two colours, in thousandths.
pub open spec fn weighted_squared_error(a: [u8; 3], b: [u8; 3]) -> int {
    299 * (channel_gap(a[0], b[0]) * channel_gap(a[0], b[0])) + 587 * (channel_gap(a[1], b[1])
        * channel_gap(a[1], b[1])) + 114 * (channel_gap(a[2], b[2]) * channel_gap(a[2], b[2]))
}

/// The mean absolute error between two colours, in thirds.
pub open spec fn mean_absolute_error(a: [u8; 3], b: [u8; 3]) -> int {
    channel_gap(a[0], b[0]) + channel_gap(a[1], b[1]) + channel_gap(a[2], b[2])
}

impl Metric {
    /// The distance between two colours under this metric, as a count of
    /// `1 / scale()` units.
    pub open spec fn distance(self, a: [u8; 3], b: [u8; 3]) -> int {
        match self {
            Metric::WeightedSquared => weighted_squared_error(a, b),
            Metric::MeanAbsolute => mean_absolute_error(a, b),
        }
    }

    /// How many units of the reported distance make one unit of the metric.
    pub open spec fn spec_scale(self) -> u32 {
        match self {
            Metric::WeightedSquared => 1000,
            Metric::MeanAbsolute => 3,
        }
    }

    /// How many units of the reported distance make one unit of the metric.
    #[verifier::when_used_as_spec(spec_scale)]
    pub fn scale(self) -> (scale: u32)
        ensures
            scale == self.spec_scale(),
    {
        match self {
            Metric::WeightedSquared => 1000,
            Metric::MeanAbsolute => 3,
        }
    }

    /// The distance between two colours under this metric.
    pub fn measure(self, a: [u8; 3], b: [u8; 3]) -> (d: u32)
        ensures
            d == self.distance(a, b),
    {
        let dr: u32 = gap(a[0], b[0]);
        let dg: u32 = gap(a[1], b[1]);
        let db: u32 = gap(a[2], b[2]);
        match self {
            Metric::WeightedSquared => {
                assert(dr * dr <= 65025 && dg * dg <= 65025 && db * db <= 65025) by (nonlinear_arith)
                    requires
                        dr <= 255,
                        dg <= 255,
                        db <= 255,
                ;
                299 * (dr * dr) + 587 * (dg * dg) + 114 * (db * db)
            },
            Metric::MeanAbsolute => dr + dg + db,
        }
    }
}

/// The absolute difference of two channel values.
fn gap(a: u8, b: u8) -> (d: u32)
    ensures
        d == channel_gap(a, b),
        d <= 255,
{
    if a >= b {
        (a - b) as u32
    } else {
        (b - a) as u32
    }
}

/// Whether `index` is the entry of `palette` nearest to `color`: no entry is
/// nearer, and every entry before it is strictly farther.
pub open spec fn is_nearest(palette: Seq<[u8; 3]>, metric: Metric, color: [u8; 3], index: int) -> bool {
    &&& 0 <= index < palette.len()
    &&& forall|j: int|
        0 <= j < palette.len() ==> metric.distance(color, palette[index]) <= metric.distance(
            color,
            #[trigger] palette[j],
        )
    &&& forall|j: int|
        0 <= j < index ==> metric.distance(color, palette[index]) < metric.distance(
            color,
            #[trigger] palette[j],
        )
}

/// The index of the entry of `palette` nearest to `color`; among entries at
/// the same distance, the first.
pub open spec fn nearest_index(palette: Seq<[u8; 3]>, metric: Metric, color: [u8; 3]) -> int {
    choose|index: int| is_nearest(palette, metric, color, index)
}

/// At most one entry is the nearest.
pub proof fn lemma_nearest_unique(
    palette: Seq<[u8; 3]>,
    metric: Metric,
    color: [u8; 3],
    first: int,
    second: int,
)
    requires
        is_nearest(palette, metric, color, first),
        is_nearest(palette, metric, color, second),
    ensures
        first == second,
        nearest_index(palette, metric, color) == first,
{
    // Two nearest entries are equally far, and each is strictly nearer than
    // any entry before it: so neither stands before the other.
    let chosen = nearest_index(palette, metric, color);
    assert(metric.distance(color, palette[first]) == metric.distance(color, palette[second]));
    assert(metric.distance(color, palette[first]) == metric.distance(color, palette[chosen]));
}

/// The entry of `palette` nearest to the colour `(r, g, b)` under `metric`,
/// with its distance. The whole table is scanned in order, and an entry
/// replaces the best so far only if it is strictly nearer.
pub fn nearest(palette: &[[u8; 3]], metric: Metric, r: u8, g: u8, b: u8) -> (found: (usize, u32))
    requires
        palette@.len() > 0,
    ensures
        found.0 == nearest_index(palette@, metric, [r, g, b]),
        is_nearest(palette@, metric, [r, g, b], found.0 as int),
        found.1 == metric.distance([r, g, b], palette@[found.0 as int]),
{
    let color: [u8; 3] = [r, g, b];
    let mut closest: usize = 0;
    let mut closest_delta: u32 = metric.measure(color, palette[0]);
    let mut i: usize = 1;
    while i < palette.len()
        invariant
            1 <= i <= palette@.len(),
            closest < i,
            closest_delta == metric.distance(color, palette@[closest as int]),
            forall|j: int|
                0 <= j < i ==> closest_delta <= metric.distance(color, #[trigger] palette@[j]),
            forall|j: int|
                0 <= j < closest ==> closest_delta < metric.distance(color, #[trigger] palette@[j]),
        decreases palette@.len() - i,
    {
        let d: u32 = metric.measure(color, palette[i]);
        if d < closest_delta {
            closest = i;
            closest_delta = d;
        }
        i += 1;
    }
    proof {
        lemma_nearest_unique(palette@, metric, color, closest as int, closest as int);
    }
    (closest, closest_delta)
}

/// The entry of the built-in table nearest to the colour `(r, g, b)` by
/// luma-weighted squared error, with that error in thousandths.
pub fn find_palette(r: u8, g: u8, b: u8) -> (found: (u8, u32))
    ensures
        found.0 == nearest_index(PALETTE@, Metric::WeightedSquared, [r, g, b]),
        found.0 < PALETTE_SIZE,
        found.1 == weighted_squared_error([r, g, b], PALETTE[found.0 as int]),
{
    let (index, delta) = nearest(&PALETTE, Metric::WeightedSquared, r, g, b);
    (index as u8, delta)
}

/// Asking again with the colour of the entry that was found gives distance
/// zero, and an entry of that same colour that stands no later in the table.
pub proof fn lemma_requery_is_exact(
    palette: Seq<[u8; 3]>,
    metric: Metric,
    color: [u8; 3],
    found: int,
    again: int,
)
    requires
        is_nearest(palette, metric, color, found),
        is_nearest(palette, metric, palette[found], again),
    ensures
        metric.distance(palette[found], palette[again]) == 0,
        again <= found,
        palette[again] == palette[found],
{
    lemma_distance_zero(metric, palette[found], palette[found]);
    lemma_distance_zero(metric, palette[found], palette[again]);
}

/// A distance is never negative, and is zero exactly between equal colours.
pub proof fn lemma_distance_zero(metric: Metric, a: [u8; 3], b: [u8; 3])
    ensures
        metric.distance(a, b) >= 0,
        metric.distance(a, b) == 0 <==> a == b,
{
    let dr = channel_gap(a[0], b[0]);
    let dg = channel_gap(a[1], b[1]);
    let db = channel_gap(a[2], b[2]);
    assert(dr * dr >= 0 && dg * dg >= 0 && db * db >= 0) by (nonlinear_arith);
    assert(dr != 0 ==> dr * dr > 0) by (nonlinear_arith);
    assert(dg != 0 ==> dg * dg > 0) by (nonlinear_arith);
    assert(db != 0 ==> db * db > 0) by (nonlinear_arith);
    if metric.distance(a, b) == 0 {
        assert(a =~= b);
    }
}

} // verus!
