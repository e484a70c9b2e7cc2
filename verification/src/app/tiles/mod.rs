//! OpenStreetMap tile proxy: which requests are tiles, where a tile comes
//! from, where it is cached and what is answered.
//!
//! `z`/`x`/`y` are parsed as unsigned integers and range-checked against the
//! valid slippy-map tile grid for that zoom level before anything is built
//! from them. Every downstream use (the upstream URL, the cache path) is built
//! from those integers, never from the raw path.
use vstd::prelude::*;
use vstd::slice::slice_subrange;

use crate::http::is_success;
use crate::text;
use crate::text::{chars_of, decimal_text, parse_unsigned, split_chars};

pub mod prune;
pub mod walk;

verus! {

/// The scheme under which tiles are served.
pub const SCHEME: &'static str = "tiles";

/// Slippy-map tiles are only defined up to zoom 19 on the standard OSM raster
/// layer.
pub const MAX_ZOOM: u8 = 19;

/// How long a tile request may take, in seconds.
pub const TILE_REQUEST_TIMEOUT_SECS: u64 = 10;

/// OSM's tile usage policy requires an identifying User-Agent and blocks
/// generic ones.
pub const TILE_USER_AGENT: &'static str = "ipwatch/0.1.1 (+https://github.com/joelmale/ipwatch)";

// ---------------------------------------------------------------------------
// Tile coordinates
// ---------------------------------------------------------------------------

/// A `{z}/{x}/{y}` slippy-map tile coordinate.
#[derive(Clone, Copy, Debug, PartialEq, Eq, Structural)]
pub struct TileCoord {
    pub z: u8,
    pub x: u32,
    pub y: u32,
}

/// The number of tile columns, and of rows, at a zoom level.
pub open spec fn side(z: nat) -> nat {
    vstd::arithmetic::power2::pow2(z)
}

impl TileCoord {
    /// Whether the coordinate names a tile: a zoom that exists, and one of the
    /// `2^z` columns and rows at that zoom.
    pub open spec fn in_grid(self) -> bool {
        self.z <= MAX_ZOOM && self.x < side(self.z as nat) && self.y < side(self.z as nat)
    }
}

/// `path` without one leading slash.
pub open spec fn relative(path: Seq<char>) -> Seq<char> {
    if path.len() > 0 && path[0] == '/' {
        path.skip(1)
    } else {
        path
    }
}

/// `name` without its `.png` suffix, where it has one.
pub open spec fn png_stem(name: Seq<char>) -> Option<Seq<char>> {
    if name.len() >= 4 && name.skip(name.len() - 4) == seq!['.', 'p', 'n', 'g'] {
        Some(name.take(name.len() - 4))
    } else {
        None
    }
}

/// The tile that a request path of the form `/{z}/{x}/{y}.png` names: exactly
/// three segments, each an unsigned integer, within the grid.
pub open spec fn tile_at(path: Seq<char>) -> Option<TileCoord> {
    let segments = text::split(relative(path), '/');
    if segments.len() == 3 {
        match png_stem(segments[2]) {
            Some(stem) => match (
                text::unsigned(segments[0]),
                text::unsigned(segments[1]),
                text::unsigned(stem),
            ) {
                (Some(z), Some(x), Some(y)) => if z <= MAX_ZOOM && x < side(z) && y < side(z) {
                    Some(TileCoord { z: z as u8, x: x as u32, y: y as u32 })
                } else {
                    None
                },
                _ => None,
            },
            None => None,
        }
    } else {
        None
    }
}

/// `z/x/y.png`.
pub open spec fn tile_name(coord: TileCoord) -> Seq<char> {
    text::decimal(coord.z as nat) + "/"@ + text::decimal(coord.x as nat) + "/"@ + text::decimal(
        coord.y as nat,
    ) + ".png"@
}

/// The components of a tile's place under the cache directory.
pub open spec fn cache_segments(coord: TileCoord) -> Seq<Seq<char>> {
    seq![
        "tiles"@,
        text::decimal(coord.z as nat),
        text::decimal(coord.x as nat),
        text::decimal(coord.y as nat) + ".png"@,
    ]
}

/// `base` and `part` as one path: a separator between them, unless `base` is
/// empty or already ends in one.
pub open spec fn joined(base: Seq<char>, part: Seq<char>) -> Seq<char> {
    if base.len() == 0 || base.last() == '/' {
        base + part
    } else {
        base + seq!['/'] + part
    }
}

/// `base` with every one of `parts` joined to it in turn.
pub open spec fn joined_all(base: Seq<char>, parts: Seq<Seq<char>>) -> Seq<char>
    decreases parts.len(),
{
    if parts.len() == 0 {
        base
    } else {
        joined(joined_all(base, parts.drop_last()), parts.last())
    }
}

proof fn lemma_joined_four(base: Seq<char>, parts: Seq<Seq<char>>)
    requires
        parts.len() == 4,
    ensures
        joined_all(base, parts) == joined(
            joined(joined(joined(base, parts[0]), parts[1]), parts[2]),
            parts[3],
        ),
{
    reveal_with_fuel(joined_all, 5);
    assert(parts.drop_last() =~= parts.take(3));
    assert(parts.take(3).drop_last() =~= parts.take(2));
    assert(parts.take(2).drop_last() =~= parts.take(1));
    assert(parts.take(1).drop_last() =~= parts.take(0));
}

/// `side`, computed.
fn grid_side(z: u8) -> (r: u32)
    requires
        z <= MAX_ZOOM,
    ensures
        r == side(z as nat),
        r <= 0x8_0000,
{
    proof {
        vstd::arithmetic::power2::lemma2_to64();
        if z < 19 {
            vstd::arithmetic::power2::lemma_pow2_strictly_increases(z as nat, 19);
        }
        vstd::bits::lemma_u32_shl_is_mul(1, z as u32);
    }
    1u32 << (z as u32)
}

/// `base` joined with `part`.
fn join_path(base: String, part: &str) -> (r: String)
    ensures
        r@ == joined(base@, part@),
{
    let chars = chars_of(base.as_str());
    if chars.len() == 0 || chars[chars.len() - 1] == '/' {
        base.concat(part)
    } else {
        let mut path = base;
        path.push('/');
        path.concat(part)
    }
}

impl TileCoord {
    /// Parses and validates a request path of the form `/{z}/{x}/{y}.png`.
    pub fn parse(path: &str) -> (r: Option<TileCoord>)
        ensures
            r == tile_at(path@),
            r matches Some(coord) ==> coord.in_grid(),
            r matches Some(coord) ==> coord.z <= 19 && coord.x < vstd::arithmetic::power2::pow2(
                coord.z as nat,
            ) && coord.y < vstd::arithmetic::power2::pow2(coord.z as nat),
    {
        let chars = chars_of(path);
        let whole: &[char] = chars.as_slice();
        let rest: &[char] = if whole.len() > 0 && whole[0] == '/' {
            slice_subrange(whole, 1, whole.len())
        } else {
            whole
        };
        proof {
            assert(rest@ == relative(path@));
        }
        let segments = split_chars(rest, '/');
        let ghost parts = text::split(relative(path@), '/');
        assert(text::runs(segments@) == parts);
        if segments.len() != 3 {
            return None;
        }
        assert(segments@[0]@ == parts[0] && segments@[1]@ == parts[1] && segments@[2]@ == parts[2]);
        let name = segments[2];
        let n: usize = name.len();
        if n < 4 || name[n - 4] != '.' || name[n - 3] != 'p' || name[n - 2] != 'n' || name[n - 1]
            != 'g' {
            proof {
                if n >= 4 {
                    let end = name@.skip(n - 4);
                    assert(end[0] == name@[n - 4] && end[1] == name@[n - 3] && end[2] == name@[n
                        - 2] && end[3] == name@[n - 1]);
                }
            }
            return None;
        }
        let stem = slice_subrange(name, 0, n - 4);
        proof {
            assert(name@.skip(n - 4) =~= seq!['.', 'p', 'n', 'g']);
            assert(stem@ =~= name@.take(n - 4));
            vstd::arithmetic::power2::lemma2_to64();
        }
        let z: u32 = match parse_unsigned(segments[0], 255) {
            Some(z) => z,
            None => {
                return None;
            },
        };
        let x = parse_unsigned(segments[1], u32::MAX);
        let y = parse_unsigned(stem, u32::MAX);
        if z > MAX_ZOOM as u32 {
            return None;
        }
        let side: u32 = grid_side(z as u8);
        match (x, y) {
            (Some(x), Some(y)) => if x < side && y < side {
                Some(TileCoord { z: z as u8, x, y })
            } else {
                None
            },
            _ => None,
        }
    }

    /// Where the tile is fetched from.
    pub fn upstream_url(&self) -> (r: String)
        ensures
            r@ == "https://tile.openstreetmap.org/"@ + tile_name(*self),
            r@ == "https://tile.openstreetmap.org/"@ + text::decimal(self.z as nat) + "/"@
                + text::decimal(self.x as nat) + "/"@ + text::decimal(self.y as nat) + ".png"@,
    {
        let url = "https://tile.openstreetmap.org/".to_string().concat(
            decimal_text(self.z as u64).as_str(),
        ).concat("/").concat(decimal_text(self.x as u64).as_str()).concat("/").concat(
            decimal_text(self.y as u64).as_str(),
        ).concat(".png");
        assert(url@ =~= "https://tile.openstreetmap.org/"@ + tile_name(*self));
        url
    }

    /// `{cache_dir}/tiles/{z}/{x}/{y}.png`.
    pub fn cache_path(&self, cache_dir: &str) -> (r: String)
        ensures
            r@ == joined_all(cache_dir@, cache_segments(*self)),
            cache_dir@.len() > 0 && cache_dir@.last() != '/' ==> r@ == cache_dir@ + seq!['/']
                + "tiles"@ + seq!['/'] + text::decimal(self.z as nat) + "/"@ + text::decimal(
                self.x as nat,
            ) + "/"@ + text::decimal(self.y as nat) + ".png"@,
    {
        let file = decimal_text(self.y as u64).concat(".png");
        let path = join_path(cache_dir.to_string(), "tiles");
        let path = join_path(path, decimal_text(self.z as u64).as_str());
        let path = join_path(path, decimal_text(self.x as u64).as_str());
        let path = join_path(path, file.as_str());
        proof {
            lemma_joined_four(cache_dir@, cache_segments(*self));
            lemma_cache_layout(cache_dir@, *self);
            assert(joined(cache_dir@, "tiles"@) + seq!['/'] + tile_name(*self) =~= joined(
                cache_dir@,
                "tiles"@,
            ) + seq!['/'] + text::decimal(self.z as nat) + "/"@ + text::decimal(self.x as nat)
                + "/"@ + text::decimal(self.y as nat) + ".png"@);
        }
        path
    }
}

// ---------------------------------------------------------------------------
// Answering a request
// ---------------------------------------------------------------------------

/// An answer to a tile request.
#[derive(Debug, PartialEq)]
pub struct TileResponse {
    pub status: u16,
    pub content_type: &'static str,
    pub cache_control: Option<&'static str>,
    pub body: Vec<u8>,
}

/// Whether `r` hands out `bytes` as a tile.
pub open spec fn is_png(r: TileResponse, bytes: Seq<u8>) -> bool {
    &&& r.status == 200
    &&& r.content_type@ == "image/png"@
    &&& text::opt_str(r.cache_control) == Some("public, max-age=604800, immutable"@)
    &&& r.body@ == bytes
}

/// Whether `r` reports a failure as plain text.
pub open spec fn is_failure(r: TileResponse, status: u16, message: Seq<char>) -> bool {
    &&& r.status == status
    &&& r.content_type@ == "text/plain"@
    &&& r.cache_control is None
    &&& r.body@ == vstd::utf8::encode_utf8(message)
}

pub fn png_response(bytes: Vec<u8>) -> (r: TileResponse)
    ensures
        is_png(r, bytes@),
        r.status == 200,
        r.content_type@ == "image/png"@,
        r.cache_control matches Some(c) && c@ == "public, max-age=604800, immutable"@,
        r.body == bytes,
{
    TileResponse {
        status: 200,
        content_type: "image/png",
        cache_control: Some("public, max-age=604800, immutable"),
        body: bytes,
    }
}

pub fn error_response(status: u16, message: &str) -> (r: TileResponse)
    ensures
        is_failure(r, status, message@),
        r.status == status,
        r.content_type@ == "text/plain"@,
        r.cache_control is None,
        r.body@ == vstd::utf8::encode_utf8(message@),
{
    TileResponse {
        status,
        content_type: "text/plain",
        cache_control: None,
        body: message.as_bytes_vec(),
    }
}

/// What looking for a tile in the cache gave.
#[derive(Debug, PartialEq)]
pub enum CacheRead {
    /// There is no cache directory to look in.
    NoCache,
    /// The cached bytes.
    Hit(Vec<u8>),
    /// No such file.
    Absent,
    /// The file could not be read.
    Unreadable,
}

/// What to do after looking in the cache.
#[derive(Debug, PartialEq)]
pub enum TileStep {
    /// Answer the request.
    Respond(TileResponse),
    /// Fetch the tile from this URL.
    Fetch(String),
}

/// Resolves the first step of a request: the tile it asks for, or the answer
/// to a path that names none.
pub fn requested_tile(path: &str) -> (r: Result<TileCoord, TileResponse>)
    ensures
        match r {
            Ok(coord) => tile_at(path@) == Some(coord) && coord.in_grid(),
            Err(response) => tile_at(path@) is None && is_failure(
                response,
                400,
                "invalid tile path"@,
            ),
        },
        r matches Err(response) ==> response.status == 400 && response.cache_control is None,
{
    match TileCoord::parse(path) {
        Some(coord) => Ok(coord),
        None => Err(error_response(400, "invalid tile path")),
    }
}

/// A cached tile is served as it is; anything else is fetched afresh.
pub fn after_cache_read(coord: TileCoord, read: CacheRead) -> (r: TileStep)
    ensures
        match r {
            TileStep::Respond(response) => read matches CacheRead::Hit(bytes) && is_png(
                response,
                bytes@,
            ),
            TileStep::Fetch(url) => !(read is Hit) && url@ == "https://tile.openstreetmap.org/"@
                + tile_name(coord),
        },
        r is Respond <==> read is Hit,
        r matches TileStep::Respond(response) ==> read matches CacheRead::Hit(bytes)
            ==> response.status == 200 && response.body == bytes,
{
    match read {
        CacheRead::Hit(bytes) => TileStep::Respond(png_response(bytes)),
        _ => TileStep::Fetch(coord.upstream_url()),
    }
}

/// Judges the upstream's answer before its body is read: `sent` is the status
/// it came with, or nothing if the request failed. `None` means that the body
/// is worth reading.
pub fn refuse_upstream(sent: Option<u16>) -> (r: Option<TileResponse>)
    ensures
        match r {
            None => sent matches Some(status) && crate::http::success(status),
            Some(response) => match sent {
                None => is_failure(response, 502, "tile fetch failed"@),
                Some(status) => !crate::http::success(status) && is_failure(
                    response,
                    502,
                    "tile upstream returned an error"@,
                ),
            },
        },
        r is None <==> sent is Some && 200 <= sent->0 <= 299,
        r matches Some(response) ==> response.status == 502 && response.cache_control is None,
{
    match sent {
        None => Some(error_response(502, "tile fetch failed")),
        Some(status) => if is_success(status) {
            None
        } else {
            Some(error_response(502, "tile upstream returned an error"))
        },
    }
}

/// The answer made of the upstream's body (`None` if it could not be read),
/// and whether that body belongs in the cache.
pub fn after_body(body: Option<Vec<u8>>) -> (r: (TileResponse, bool))
    ensures
        match body {
            Some(bytes) => is_png(r.0, bytes@) && r.1,
            None => is_failure(r.0, 502, "failed to read tile body"@) && !r.1,
        },
        r.1 <==> body is Some,
        body matches Some(bytes) ==> r.0.status == 200 && r.0.body == bytes,
        body is None ==> r.0.status == 502 && r.0.cache_control is None,
{
    match body {
        Some(bytes) => (png_response(bytes), true),
        None => (error_response(502, "failed to read tile body"), false),
    }
}

// ---------------------------------------------------------------------------
// Laws
// ---------------------------------------------------------------------------

proof fn lemma_digits_unsigned(n: nat)
    ensures
        text::unsigned(text::decimal(n)) == Some(n),
        forall|i: int|
            0 <= i < text::decimal(n).len() ==> #[trigger] text::decimal(n)[i] != '/'
                && text::decimal(n)[i] != '.' && text::decimal(n)[i] != '+',
{
    text::lemma_decimal(n);
    let d = text::decimal(n);
    assert forall|i: int| 0 <= i < d.len() implies #[trigger] d[i] != '/' && d[i] != '.' && d[i]
        != '+' by {
        assert(text::is_digit(d[i]));
    }
}

/// A tile's name has three parts between slashes: the zoom, the column, and
/// the row with the suffix behind it.
pub proof fn lemma_tile_name_parts(coord: TileCoord)
    ensures
        ({
            let segments = text::split(tile_name(coord), '/');
            &&& segments.len() == 3
            &&& segments[0] == text::decimal(coord.z as nat)
            &&& segments[1] == text::decimal(coord.x as nat)
            &&& png_stem(segments[2]) == Some(text::decimal(coord.y as nat))
        }),
{
    reveal_strlit("/");
    reveal_strlit(".png");
    let z = text::decimal(coord.z as nat);
    let x = text::decimal(coord.x as nat);
    let y = text::decimal(coord.y as nat);
    lemma_digits_unsigned(coord.z as nat);
    lemma_digits_unsigned(coord.x as nat);
    lemma_digits_unsigned(coord.y as nat);
    let file = y + ".png"@;
    let pieces = seq![z, x, file];
    assert(text::join(pieces, seq!['/']) =~= tile_name(coord)) by {
        reveal_with_fuel(text::join, 4);
        assert(pieces.drop_last() =~= seq![z, x]);
        assert(seq![z, x].drop_last() =~= seq![z]);
    }
    text::lemma_split_join(pieces, '/');
    assert(file.skip(file.len() - 4) =~= seq!['.', 'p', 'n', 'g']);
    assert(file.take(file.len() - 4) =~= y);
}

/// Every tile of the grid can be asked for: the path under which a tile is
/// fetched upstream is read back as that tile, with or without a leading
/// slash.
pub proof fn lemma_tile_name_round_trip(coord: TileCoord)
    requires
        coord.in_grid(),
    ensures
        tile_at(tile_name(coord)) == Some(coord),
        tile_at("/"@ + tile_name(coord)) == Some(coord),
{
    reveal_strlit("/");
    lemma_tile_name_parts(coord);
    lemma_digits_unsigned(coord.z as nat);
    lemma_digits_unsigned(coord.x as nat);
    lemma_digits_unsigned(coord.y as nat);
    text::lemma_decimal(coord.z as nat);
    let name = tile_name(coord);
    assert(name[0] == text::decimal(coord.z as nat)[0]);
    assert(relative(name) == name);
    assert(relative("/"@ + name) =~= name);
}

/// Nothing but tiles of the grid gets past the parser.
pub proof fn lemma_parsed_tile_is_in_grid(path: Seq<char>)
    ensures
        tile_at(path) matches Some(coord) ==> coord.in_grid(),
{
    vstd::arithmetic::power2::lemma2_to64();
    if let Some(coord) = tile_at(path) {
        let segments = text::split(relative(path), '/');
        let z = text::unsigned(segments[0]).unwrap();
        if z < 19 {
            vstd::arithmetic::power2::lemma_pow2_strictly_increases(z, 19);
        }
    }
}

/// A component that can neither leave a directory nor add a level to it.
pub open spec fn plain_component(part: Seq<char>) -> bool {
    &&& part.len() > 0
    &&& part != seq!['.']
    &&& part != seq!['.', '.']
    &&& forall|i: int| 0 <= i < part.len() ==> #[trigger] part[i] != '/' && part[i] != '\\'
}

/// A tile's cache path stays below the cache directory: every component that
/// is joined to the directory is a plain name, whatever the request said.
pub proof fn lemma_cache_path_is_confined(coord: TileCoord)
    ensures
        forall|i: int|
            0 <= i < cache_segments(coord).len() ==> plain_component(
                #[trigger] cache_segments(coord)[i],
            ),
{
    reveal_strlit("tiles");
    reveal_strlit(".png");
    text::lemma_decimal(coord.z as nat);
    text::lemma_decimal(coord.x as nat);
    text::lemma_decimal(coord.y as nat);
    lemma_digits_are_plain(text::decimal(coord.z as nat));
    lemma_digits_are_plain(text::decimal(coord.x as nat));
    let y = text::decimal(coord.y as nat);
    let file = y + ".png"@;
    assert forall|i: int| 0 <= i < file.len() implies #[trigger] file[i] != '/' && file[i]
        != '\\' by {
        if i < y.len() {
            assert(text::is_digit(y[i]));
        }
    }
    assert(file.len() > 4);
    assert("tiles"@.len() == 5);
}

proof fn lemma_digits_are_plain(s: Seq<char>)
    requires
        s.len() > 0,
        text::all_digits(s),
    ensures
        plain_component(s),
{
    assert(text::is_digit(s[0]));
    assert forall|i: int| 0 <= i < s.len() implies #[trigger] s[i] != '/' && s[i] != '\\' by {
        assert(text::is_digit(s[i]));
    }
}

/// A path joined out of plain components starts with the directory it was
/// joined to.
pub proof fn lemma_joined_starts_with_base(base: Seq<char>, parts: Seq<Seq<char>>)
    ensures
        joined_all(base, parts).len() >= base.len(),
        joined_all(base, parts).take(base.len() as int) == base,
    decreases parts.len(),
{
    if parts.len() == 0 {
        assert(base.take(base.len() as int) =~= base);
    } else {
        let front = joined_all(base, parts.drop_last());
        lemma_joined_starts_with_base(base, parts.drop_last());
        let whole = joined(front, parts.last());
        assert(whole.take(base.len() as int) =~= front.take(base.len() as int));
    }
}

/// A tile's cache path is its name below `tiles` in the cache directory.
pub proof fn lemma_cache_layout(cache_dir: Seq<char>, coord: TileCoord)
    ensures
        joined_all(cache_dir, cache_segments(coord)) == joined(cache_dir, "tiles"@) + seq!['/']
            + tile_name(coord),
{
    reveal_strlit("/");
    reveal_strlit("tiles");
    reveal_strlit(".png");
    let parts = cache_segments(coord);
    text::lemma_decimal(coord.z as nat);
    text::lemma_decimal(coord.x as nat);
    lemma_joined_four(cache_dir, parts);
    let top = joined(cache_dir, "tiles"@);
    assert(top.last() == "tiles"@.last());
    let second = top + seq!['/'] + parts[1];
    assert(text::is_digit(parts[1].last()));
    assert(second.last() == parts[1].last());
    let third = second + seq!['/'] + parts[2];
    assert(text::is_digit(parts[2].last()));
    assert(third.last() == parts[2].last());
    assert(joined_all(cache_dir, parts) == third + seq!['/'] + parts[3]);
    assert(third + seq!['/'] + parts[3] =~= top + seq!['/'] + tile_name(coord));
}

/// Different tiles never share a place in the cache.
pub proof fn lemma_cache_paths_are_distinct(cache_dir: Seq<char>, a: TileCoord, b: TileCoord)
    requires
        joined_all(cache_dir, cache_segments(a)) == joined_all(cache_dir, cache_segments(b)),
    ensures
        a == b,
{
    lemma_cache_layout(cache_dir, a);
    lemma_cache_layout(cache_dir, b);
    let top = joined(cache_dir, "tiles"@) + seq!['/'];
    assert(tile_name(a) =~= (top + tile_name(a)).skip(top.len() as int));
    assert(tile_name(b) =~= (top + tile_name(b)).skip(top.len() as int));
    lemma_tile_name_parts(a);
    lemma_tile_name_parts(b);
    lemma_digits_unsigned(a.z as nat);
    lemma_digits_unsigned(a.x as nat);
    lemma_digits_unsigned(a.y as nat);
    lemma_digits_unsigned(b.z as nat);
    lemma_digits_unsigned(b.x as nat);
    lemma_digits_unsigned(b.y as nat);
}

proof fn lemma_unsigned_is_plain(s: Seq<char>)
    requires
        text::unsigned(s) is Some,
    ensures
        s.len() > 0,
        forall|i: int| 0 <= i < s.len() ==> #[trigger] s[i] != '/',
{
    text::lemma_only_unsigned(s);
    assert forall|i: int| 0 <= i < s.len() implies #[trigger] s[i] != '/' by {
        if i > 0 {
            assert('0' <= s[i] <= '9');
        }
    }
}

proof fn lemma_three_segments(z: Seq<char>, x: Seq<char>, file: Seq<char>)
    requires
        forall|i: int| 0 <= i < z.len() ==> #[trigger] z[i] != '/',
        forall|i: int| 0 <= i < x.len() ==> #[trigger] x[i] != '/',
        forall|i: int| 0 <= i < file.len() ==> #[trigger] file[i] != '/',
    ensures
        text::split(z + seq!['/'] + x + seq!['/'] + file, '/') == seq![z, x, file],
{
    let pieces = seq![z, x, file];
    assert(text::join(pieces, seq!['/']) =~= z + seq!['/'] + x + seq!['/'] + file) by {
        reveal_with_fuel(text::join, 4);
        assert(pieces.drop_last() =~= seq![z, x]);
        assert(seq![z, x].drop_last() =~= seq![z]);
    }
    assert forall|i: int, j: int|
        0 <= i < pieces.len() && 0 <= j < pieces[i].len() implies #[trigger] pieces[i][j] != '/' by {
        assert(i == 0 || i == 1 || i == 2);
    }
    text::lemma_split_join(pieces, '/');
}

/// A path of three unsigned integers between slashes, `.png` behind the last,
/// names the tile with those numbers exactly if they lie in the grid: a zoom of
/// at most 19, and a column and a row below two to the power of the zoom. One
/// slash in front does not matter.
pub proof fn lemma_tile_path(zs: Seq<char>, xs: Seq<char>, ys: Seq<char>, z: nat, x: nat, y: nat)
    requires
        text::unsigned(zs) == Some(z),
        text::unsigned(xs) == Some(x),
        text::unsigned(ys) == Some(y),
    ensures
        ({
            let path = zs + seq!['/'] + xs + seq!['/'] + (ys + seq!['.', 'p', 'n', 'g']);
            let named = if z <= 19 && x < vstd::arithmetic::power2::pow2(z) && y
                < vstd::arithmetic::power2::pow2(z) {
                Some(TileCoord { z: z as u8, x: x as u32, y: y as u32 })
            } else {
                None
            };
            tile_at(path) == named && tile_at(seq!['/'] + path) == named
        }),
{
    let file = ys + seq!['.', 'p', 'n', 'g'];
    let path = zs + seq!['/'] + xs + seq!['/'] + file;
    lemma_unsigned_is_plain(zs);
    lemma_unsigned_is_plain(xs);
    lemma_unsigned_is_plain(ys);
    assert forall|i: int| 0 <= i < file.len() implies #[trigger] file[i] != '/' by {
        if i < ys.len() {
            assert(file[i] == ys[i]);
        }
    }
    lemma_three_segments(zs, xs, file);
    assert(path[0] == zs[0]);
    assert(relative(path) == path);
    assert(relative(seq!['/'] + path) =~= path);
    assert(file.skip(file.len() - 4) =~= seq!['.', 'p', 'n', 'g']);
    assert(file.take(file.len() - 4) =~= ys);
}

/// Nothing else names a tile: a path that does is made of such integers, with
/// the tile's numbers, and of nothing more.
pub proof fn lemma_only_tile_paths(path: Seq<char>, coord: TileCoord) -> (parts: (
    Seq<char>,
    Seq<char>,
    Seq<char>,
))
    requires
        tile_at(path) == Some(coord),
    ensures
        ({
            let rest = parts.0 + seq!['/'] + parts.1 + seq!['/'] + (parts.2 + seq![
                '.',
                'p',
                'n',
                'g',
            ]);
            path == rest || path == seq!['/'] + rest
        }),
        text::unsigned(parts.0) == Some(coord.z as nat),
        text::unsigned(parts.1) == Some(coord.x as nat),
        text::unsigned(parts.2) == Some(coord.y as nat),
{
    lemma_parsed_tile_is_in_grid(path);
    vstd::arithmetic::power2::lemma2_to64();
    let rest = relative(path);
    let segments = text::split(rest, '/');
    text::lemma_join_split(rest, '/');
    let file = segments[2];
    let stem = file.take(file.len() - 4);
    assert(file =~= stem + seq!['.', 'p', 'n', 'g']);
    let z = text::unsigned(segments[0])->0;
    if z < 19 {
        vstd::arithmetic::power2::lemma_pow2_strictly_increases(z, 19);
    }
    assert(text::join(segments, seq!['/']) =~= segments[0] + seq!['/'] + segments[1] + seq!['/']
        + file) by {
        reveal_with_fuel(text::join, 4);
        assert(segments.drop_last().drop_last() =~= seq![segments[0]]);
    }
    if path.len() > 0 && path[0] == '/' {
        assert(path =~= seq!['/'] + rest);
    }
    (segments[0], segments[1], stem)
}

/// A part is joined to a directory with exactly one separator between them,
/// whether or not the directory already ends in one.
pub proof fn lemma_joining(base: Seq<char>, part: Seq<char>)
    requires
        base.len() > 0,
        base.last() != '/',
    ensures
        joined(base, part) == base + seq!['/'] + part,
        joined(base + seq!['/'], part) == base + seq!['/'] + part,
        joined(seq![], part) == part,
{
    assert((base + seq!['/']).last() == '/');
    assert(Seq::<char>::empty() + part =~= part);
}

} // verus!
