//! The web tile source: where a tile's bytes come from.
//!
//! Transport itself (HTTP, gzip, protobuf) happens outside the library; the
//! source holds the access token and builds the exact request URL for a
//! tile coordinate.

use vstd::prelude::*;

verus! {

use vstd::string::StringExecFns;

/// The decimal digit character for `d` in `0..=9`.
pub open spec fn decimal_digit(d: int) -> char {
    if d == 0 {
        '0'
    } else if d == 1 {
        '1'
    } else if d == 2 {
        '2'
    } else if d == 3 {
        '3'
    } else if d == 4 {
        '4'
    } else if d == 5 {
        '5'
    } else if d == 6 {
        '6'
    } else if d == 7 {
        '7'
    } else if d == 8 {
        '8'
    } else {
        '9'
    }
}

/// The decimal digits of `n`, most significant first.
pub open spec fn decimal_digits(n: nat) -> Seq<char>
    decreases n,
{
    if n < 10 {
        seq![decimal_digit(n as int)]
    } else {
        decimal_digits(n / 10) + seq![decimal_digit((n % 10) as int)]
    }
}

/// The decimal rendering of a signed integer, with a leading minus sign
/// when it is negative.
pub open spec fn decimal_int(n: int) -> Seq<char> {
    if n < 0 {
        seq!['-'] + decimal_digits((-n) as nat)
    } else {
        decimal_digits(n as nat)
    }
}

/// The request URL for the tile at `(x, y)` of zoom level `z`: the fixed
/// endpoint template with the coordinates in decimal and the access token
/// appended.
pub open spec fn tile_url(token: Seq<char>, x: int, y: int, z: int) -> Seq<char> {
    "https://api.mapbox.com/v4/mapbox.mapbox-streets-v8/"@ + decimal_int(z) + "/"@ + decimal_int(
        x,
    ) + "/"@ + decimal_int(y) + ".vector.pbf?access_token="@ + token
}

/// Relies on `i32::to_string`: it renders the value in decimal, the digits
/// most significant first, with a leading minus sign when it is negative.
#[verifier::external_body]
fn i32_to_string(n: i32) -> (s: String)
    ensures
        s@ == decimal_int(n as int),
{
    n.to_string()
}

/// A vector-tile endpoint reached over the web, configured with an access
/// token. Fetching itself is driven outside the library; see `Globe` for
/// the queue and cache around it.
#[derive(Debug)]
pub struct WebTileSource {
    pub token: String,
}

impl WebTileSource {
    /// A source that authenticates with `token`.
    pub fn new(token: &str) -> (s: Self)
        ensures
            s.token@ == token@,
    {
        WebTileSource { token: String::from_str(token) }
    }

    /// The URL that fetches the tile at `(x, y)` of zoom level `z`.
    pub fn get_url(&self, x: i32, y: i32, z: i32) -> (u: String)
        ensures
            u@ == tile_url(self.token@, x as int, y as int, z as int),
    {
        let mut u = String::from_str("https://api.mapbox.com/v4/mapbox.mapbox-streets-v8/");
        u.append(i32_to_string(z).as_str());
        u.append("/");
        u.append(i32_to_string(x).as_str());
        u.append("/");
        u.append(i32_to_string(y).as_str());
        u.append(".vector.pbf?access_token=");
        u.append(self.token.as_str());
        proof {
            assert(u@ =~= tile_url(self.token@, x as int, y as int, z as int));
        }
        u
    }
}

} // verus!
