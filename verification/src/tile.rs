//! How services number their tiles.

use vstd::arithmetic::power2::*;
use vstd::bits::*;
use vstd::prelude::*;

use crate::error::Error;

verus! {

/// How a service numbers its tiles.
///
/// These are not interchangeable coordinate systems with a conversion between
/// them: a geographic tile and a Mercator tile at the same numbers are
/// different pieces of ground. What they share is a centre point, which is why
/// that is the route to a quadkey.
#[derive(Debug, Clone, Copy, PartialEq, Eq, Structural)]
pub enum Scheme {
    /// Web Mercator, `2^z` square, y counted from the north.
    WebMercator,
    /// Web Mercator, y counted from the south.
    WebMercatorTms,
    /// Geographic (EPSG:4326): `2^(z+1)` columns by `2^z` rows over the whole
    /// ellipsoid, y from the north.
    Geographic,
    /// Geographic, y from the south. What Cesium's terrain tiles use.
    GeographicTms,
}

/// The grid a scheme lays down at `level`, as `(columns, rows)`.
pub open spec fn grid_of(scheme: Scheme, level: nat) -> (nat, nat) {
    match scheme {
        Scheme::WebMercator | Scheme::WebMercatorTms => (pow2(level), pow2(level)),
        Scheme::Geographic | Scheme::GeographicTms => (2 * pow2(level), pow2(level)),
    }
}

/// Whether the scheme counts rows from the south.
pub open spec fn counts_from_south(scheme: Scheme) -> bool {
    scheme == Scheme::WebMercatorTms || scheme == Scheme::GeographicTms
}

impl Scheme {
    /// The grid at `level`, as `(columns, rows)`.
    ///
    /// Every level a `u64` side can count is accepted: up to 63 for Mercator,
    /// whose grid is square, and up to 62 for the geographic schemes, whose
    /// extra column doubles the width.
    pub fn grid(&self, level: u8) -> (res: (u64, u64))
        requires
            level < 63 || (level == 63 && (*self == Scheme::WebMercator || *self
                == Scheme::WebMercatorTms)),
        ensures
            res.0 as nat == grid_of(*self, level as nat).0,
            res.1 as nat == grid_of(*self, level as nat).1,
    {
        proof {
            lemma_u64_pow2_no_overflow(level as nat);
            lemma_u64_shl_is_mul(1, level as u64);
            lemma_pow2_adds(level as nat, 1);
            lemma2_to64();
            if level < 63 {
                lemma_u64_pow2_no_overflow((level + 1) as nat);
            }
        }
        let side = 1u64 << (level as u64);
        match self {
            Scheme::WebMercator | Scheme::WebMercatorTms => (side, side),
            Scheme::Geographic | Scheme::GeographicTms => (side * 2, side),
        }
    }

    /// Row `y` at `level`, counted from the north whichever way the scheme
    /// counts it.
    pub fn y_from_north(&self, level: u8, y: u32) -> (res: u32)
        requires
            level <= 32,
            (y as nat) < grid_of(*self, level as nat).1,
        ensures
            counts_from_south(*self) ==> res as nat == grid_of(*self, level as nat).1 - 1 - y,
            !counts_from_south(*self) ==> res == y,
            *self == Scheme::WebMercator || *self == Scheme::Geographic ==> res == y,
            *self == Scheme::WebMercatorTms || *self == Scheme::GeographicTms ==> res as nat
                == grid_of(*self, level as nat).1 - 1 - y,
    {
        match self {
            Scheme::WebMercator | Scheme::Geographic => y,
            Scheme::WebMercatorTms | Scheme::GeographicTms => {
                let (_, rows) = self.grid(level);
                proof {
                    lemma_pow2_mono_to_32(level as nat);
                }
                (rows - 1 - (y as u64)) as u32
            },
        }
    }
}

/// Only the TMS schemes count rows from the south: Web Mercator and
/// geographic tiles are numbered from the north, as the map is read, and each
/// TMS scheme is its twin turned upside down, row for row.
pub proof fn law_only_tms_counts_from_the_south(level: nat)
    ensures
        !counts_from_south(Scheme::WebMercator),
        !counts_from_south(Scheme::Geographic),
        counts_from_south(Scheme::WebMercatorTms),
        counts_from_south(Scheme::GeographicTms),
        grid_of(Scheme::WebMercatorTms, level) == grid_of(Scheme::WebMercator, level),
        grid_of(Scheme::GeographicTms, level) == grid_of(Scheme::Geographic, level),
        grid_of(Scheme::Geographic, level).1 == grid_of(Scheme::WebMercator, level).1,
        grid_of(Scheme::Geographic, level).0 == 2 * grid_of(Scheme::WebMercator, level).0,
{
}

proof fn lemma_pow2_mono_to_32(level: nat)
    requires
        level <= 32,
    ensures
        pow2(level) <= 0x1_0000_0000,
{
    lemma2_to64();
    if level < 32 {
        lemma_pow2_strictly_increases(level, 32);
    }
}

/// A tile as the service that served it numbered it.
#[derive(Debug, Clone, Copy, PartialEq, Eq, Structural)]
pub struct Tile {
    pub scheme: Scheme,
    pub level: u8,
    pub x: u32,
    pub y: u32,
}

impl Tile {
    /// A tile, if its level is one a quadkey can address and it lies in the
    /// grid its scheme lays down at that level.
    pub fn new(scheme: Scheme, level: u8, x: u32, y: u32) -> (res: Result<Tile, Error>)
        ensures
            level > 32 ==> res == Err::<Tile, Error>(Error::LevelTooDeep { level, max: 32 }),
            level <= 32 && (x >= grid_of(scheme, level as nat).0 || y >= grid_of(
                scheme,
                level as nat,
            ).1) ==> res == Err::<Tile, Error>(
                Error::OutOfGrid {
                    level,
                    x,
                    y,
                    columns: grid_of(scheme, level as nat).0 as u64,
                    rows: grid_of(scheme, level as nat).1 as u64,
                },
            ),
            level <= 32 && x < grid_of(scheme, level as nat).0 && y < grid_of(
                scheme,
                level as nat,
            ).1 ==> res == Ok::<Tile, Error>(Tile { scheme, level, x, y }),
    {
        if level > 32 {
            return Err(Error::LevelTooDeep { level, max: 32 });
        }
        let (columns, rows) = scheme.grid(level);
        if (x as u64) >= columns || (y as u64) >= rows {
            return Err(Error::OutOfGrid { level, x, y, columns, rows });
        }
        Ok(Tile { scheme, level, x, y })
    }
}

} // verus!
