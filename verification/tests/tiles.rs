use ipwatch::app::tiles::prune::{
    plan_positions, plan_prune, prune_cache, surviving_bytes, CacheEntry, TimeSpan, Timestamp,
    MAX_CACHE_BYTES, MAX_TILE_AGE_SECS,
};
use ipwatch::app::tiles::walk::{CacheWalk, FileKind, Metadata};
use ipwatch::app::tiles::{
    after_body, after_cache_read, error_response, png_response, refuse_upstream, requested_tile,
    CacheRead, TileCoord, TileStep,
};

#[test]
fn parses_valid_path() {
    let coord = TileCoord::parse("/3/4/5.png").expect("valid path should parse");
    assert_eq!(coord, TileCoord { z: 3, x: 4, y: 5 });
}

#[test]
fn parses_path_without_leading_slash() {
    let coord = TileCoord::parse("3/4/5.png").expect("valid path should parse");
    assert_eq!(coord, TileCoord { z: 3, x: 4, y: 5 });
}

#[test]
fn rejects_missing_segments() {
    assert!(TileCoord::parse("/3/4.png").is_none());
    assert!(TileCoord::parse("/3.png").is_none());
    assert!(TileCoord::parse("/").is_none());
    assert!(TileCoord::parse("").is_none());
}

#[test]
fn rejects_extra_segments() {
    assert!(TileCoord::parse("/3/4/5/6.png").is_none());
}

#[test]
fn rejects_missing_png_suffix() {
    assert!(TileCoord::parse("/3/4/5").is_none());
    assert!(TileCoord::parse("/3/4/5.jpg").is_none());
}

#[test]
fn rejects_non_numeric_segments() {
    assert!(TileCoord::parse("/z/4/5.png").is_none());
    assert!(TileCoord::parse("/3/x/5.png").is_none());
    assert!(TileCoord::parse("/3/4/y.png").is_none());
    assert!(TileCoord::parse("/3.5/4/5.png").is_none());
    assert!(TileCoord::parse("/-1/4/5.png").is_none());
}

#[test]
fn rejects_zoom_above_max() {
    assert!(TileCoord::parse("/20/0/0.png").is_none());
    assert!(TileCoord::parse("/255/0/0.png").is_none());
    assert!(TileCoord::parse("/19/0/0.png").is_some());
}

#[test]
fn rejects_x_y_out_of_range_for_zoom() {
    // At z=3 the grid is 8x8 (0..=7).
    assert!(TileCoord::parse("/3/8/0.png").is_none());
    assert!(TileCoord::parse("/3/0/8.png").is_none());
    assert!(TileCoord::parse("/3/7/7.png").is_some());
    // z=0 is the single whole-world tile: only (0,0) is valid.
    assert!(TileCoord::parse("/0/0/0.png").is_some());
    assert!(TileCoord::parse("/0/1/0.png").is_none());
}

#[test]
fn rejects_path_traversal_attempts() {
    assert!(TileCoord::parse("/../../etc/passwd").is_none());
    assert!(TileCoord::parse("/3/../5.png").is_none());
    assert!(TileCoord::parse("/3/4/../5.png").is_none());
    assert!(TileCoord::parse("/3/4/..%2f..%2f5.png").is_none());
    assert!(TileCoord::parse("/3/4/5.png/../../secret").is_none());
}

#[test]
fn numbers_follow_the_rules_of_unsigned_integers() {
    // A sign and leading zeros are fine; overflow and an empty stem are not.
    assert_eq!(
        TileCoord::parse("/+3/004/5.png"),
        Some(TileCoord { z: 3, x: 4, y: 5 })
    );
    assert!(TileCoord::parse("/3/4294967300/5.png").is_none());
    assert!(TileCoord::parse("/259/4/5.png").is_none());
    assert!(TileCoord::parse("/3/4/.png").is_none());
    assert!(TileCoord::parse("//3/4/5.png").is_none());
}

#[test]
fn the_corners_of_the_deepest_grid_are_tiles() {
    let last = TileCoord { z: 19, x: 524_287, y: 524_287 };
    assert_eq!(TileCoord::parse("/19/524287/524287.png"), Some(last));
    assert!(TileCoord::parse("/19/524288/0.png").is_none());
}

#[test]
fn cache_path_is_confined_to_cache_dir_and_matches_layout() {
    let coord = TileCoord::parse("/12/2050/1400.png").unwrap();
    let cache_dir = "/app/cache";
    let path = coord.cache_path(cache_dir);
    assert_eq!(path, "/app/cache/tiles/12/2050/1400.png");
    assert!(path.starts_with(cache_dir));
}

#[test]
fn cache_path_adds_no_second_separator() {
    let coord = TileCoord { z: 1, x: 0, y: 1 };
    assert_eq!(coord.cache_path("/app/cache/"), "/app/cache/tiles/1/0/1.png");
    assert_eq!(coord.cache_path(""), "tiles/1/0/1.png");
}

#[test]
fn upstream_url_uses_validated_integers() {
    let coord = TileCoord::parse("/12/2050/1400.png").unwrap();
    assert_eq!(
        coord.upstream_url(),
        "https://tile.openstreetmap.org/12/2050/1400.png"
    );
}

#[test]
fn an_upstream_path_reads_back_as_its_tile() {
    for coord in [
        TileCoord { z: 0, x: 0, y: 0 },
        TileCoord { z: 7, x: 127, y: 3 },
        TileCoord { z: 19, x: 524_287, y: 100_000 },
    ] {
        let url = coord.upstream_url();
        let path = url.strip_prefix("https://tile.openstreetmap.org").unwrap();
        assert_eq!(TileCoord::parse(path), Some(coord));
    }
}

// --- answering ---

#[test]
fn a_path_that_names_no_tile_is_a_bad_request() {
    let response = requested_tile("/3/4/5.jpg").unwrap_err();
    assert_eq!(response.status, 400);
    assert_eq!(response.content_type, "text/plain");
    assert_eq!(response.cache_control, None);
    assert_eq!(response.body, b"invalid tile path".to_vec());
    assert_eq!(requested_tile("/3/4/5.png").unwrap(), TileCoord { z: 3, x: 4, y: 5 });
}

#[test]
fn a_cached_tile_is_served_and_others_are_fetched() {
    let coord = TileCoord { z: 3, x: 4, y: 5 };
    assert_eq!(
        after_cache_read(coord, CacheRead::Hit(vec![1, 2, 3])),
        TileStep::Respond(png_response(vec![1, 2, 3]))
    );
    for read in [CacheRead::NoCache, CacheRead::Absent, CacheRead::Unreadable] {
        assert_eq!(
            after_cache_read(coord, read),
            TileStep::Fetch("https://tile.openstreetmap.org/3/4/5.png".to_string())
        );
    }
}

#[test]
fn a_tile_is_answered_with_cache_headers() {
    let response = png_response(vec![9]);
    assert_eq!(response.status, 200);
    assert_eq!(response.content_type, "image/png");
    assert_eq!(response.cache_control, Some("public, max-age=604800, immutable"));
    assert_eq!(response.body, vec![9]);
}

#[test]
fn upstream_failures_are_bad_gateways() {
    assert_eq!(refuse_upstream(None), Some(error_response(502, "tile fetch failed")));
    assert_eq!(
        refuse_upstream(Some(404)),
        Some(error_response(502, "tile upstream returned an error"))
    );
    assert_eq!(refuse_upstream(Some(200)), None);
    assert_eq!(after_body(None), (error_response(502, "failed to read tile body"), false));
    assert_eq!(after_body(Some(vec![7])), (png_response(vec![7]), true));
}

#[test]
fn an_error_body_is_encoded_as_utf8() {
    assert_eq!(error_response(400, "é").body, vec![0xc3, 0xa9]);
}

// --- plan_prune ---

const NOW: Timestamp = Timestamp { secs: 1_700_000_000, nanos: 500 };

const MAX_AGE: TimeSpan = TimeSpan { secs: MAX_TILE_AGE_SECS, nanos: 0 };

fn entry(name: &str, size_bytes: u64, age_secs: u64) -> CacheEntry<String> {
    CacheEntry {
        path: name.to_string(),
        size_bytes,
        modified: Timestamp { secs: NOW.secs - age_secs as i64, nanos: NOW.nanos },
    }
}

#[test]
fn limits_are_thirty_days_and_a_hundred_mebibytes() {
    assert_eq!(MAX_TILE_AGE_SECS, 30 * 24 * 60 * 60);
    assert_eq!(MAX_CACHE_BYTES, 100 * 1024 * 1024);
}

#[test]
fn empty_input_prunes_nothing() {
    let to_remove = plan_prune(&[], NOW, MAX_AGE, MAX_CACHE_BYTES);
    assert!(to_remove.is_empty());
}

#[test]
fn nothing_over_either_limit_removes_nothing() {
    let entries = vec![entry("a.png", 1024, 60), entry("b.png", 2048, 3600)];
    let to_remove = plan_prune(&entries, NOW, MAX_AGE, MAX_CACHE_BYTES);
    assert!(to_remove.is_empty());
}

#[test]
fn over_age_entry_is_removed_even_when_well_under_the_size_budget() {
    let stale = entry("stale.png", 1024, 31 * 24 * 60 * 60);
    let fresh = entry("fresh.png", 1024, 60);
    let entries = vec![stale.clone(), fresh];

    let to_remove = plan_prune(&entries, NOW, MAX_AGE, MAX_CACHE_BYTES);

    assert_eq!(to_remove, vec![stale.path]);
}

#[test]
fn entry_exactly_at_the_age_limit_is_kept() {
    let entries = vec![entry("boundary.png", 1024, MAX_TILE_AGE_SECS)];
    let to_remove = plan_prune(&entries, NOW, MAX_AGE, MAX_CACHE_BYTES);
    assert!(to_remove.is_empty());

    // One nanosecond more is past it.
    let mut over = entry("over.png", 1024, MAX_TILE_AGE_SECS);
    over.modified.nanos -= 1;
    assert_eq!(plan_prune(&[over], NOW, MAX_AGE, MAX_CACHE_BYTES), vec!["over.png"]);
}

#[test]
fn over_size_removes_oldest_first_until_under_budget() {
    let oldest = entry("oldest.png", 40, 300);
    let middle = entry("middle.png", 40, 200);
    let newest = entry("newest.png", 40, 100);
    let entries = vec![newest.clone(), oldest.clone(), middle.clone()];

    // Budget of 50 bytes: total is 120, so entries must be dropped until at or
    // under 50. Dropping just `oldest` (leaving 80) isn't enough, dropping
    // `oldest` + `middle` (leaving 40) is.
    let to_remove = plan_prune(&entries, NOW, MAX_AGE, 50);

    assert_eq!(to_remove, vec![oldest.path, middle.path]);
    assert!(!to_remove.contains(&newest.path));
    assert_eq!(plan_positions(&entries, NOW, MAX_AGE, 50), vec![1, 2]);
}

#[test]
fn over_size_and_over_age_combine_without_double_counting() {
    let stale = entry("stale.png", 1000, 40 * 24 * 60 * 60);
    let big_fresh = entry("big_fresh.png", 1000, 60);
    let entries = vec![stale.clone(), big_fresh.clone()];

    // `stale` is removed by the age pass; the size pass then only has
    // `big_fresh` left, which alone is already under this budget, so it must
    // not also be removed.
    let to_remove = plan_prune(&entries, NOW, MAX_AGE, 1000);

    assert_eq!(to_remove, vec![stale.path]);
    assert!(!to_remove.contains(&big_fresh.path));
}

#[test]
fn entries_of_one_age_go_in_the_order_they_came() {
    let entries = vec![entry("a", 10, 50), entry("b", 10, 50), entry("c", 10, 50)];
    assert_eq!(plan_prune(&entries, NOW, MAX_AGE, 10), vec!["a", "b"]);
}

#[test]
fn an_entry_from_the_future_is_judged_by_size_only() {
    let mut ahead = entry("ahead.png", 10, 0);
    ahead.modified.secs += 1_000_000_000;
    let entries = vec![ahead, entry("now.png", 10, 0)];
    assert!(plan_prune(&entries, NOW, MAX_AGE, 20).is_empty());
    assert_eq!(plan_prune(&entries, NOW, MAX_AGE, 10), vec!["now.png"]);
    assert_eq!(plan_prune(&entries, NOW, MAX_AGE, 0), vec!["now.png", "ahead.png"]);
}

#[test]
fn surviving_bytes_leaves_the_stale_out_and_notices_overflow() {
    let stale = entry("stale.png", u64::MAX, 31 * 24 * 60 * 60);
    let entries = vec![stale, entry("a", 3, 1), entry("b", 4, 2)];
    assert_eq!(surviving_bytes(&entries, NOW, MAX_AGE), Some(7));

    let huge = vec![entry("a", u64::MAX, 1), entry("b", 1, 2)];
    assert_eq!(surviving_bytes(&huge, NOW, MAX_AGE), None);
}

#[test]
fn the_shipped_limits_are_applied() {
    let entries = vec![
        entry("young", MAX_CACHE_BYTES, 10),
        entry("old", 1, 20),
        entry("stale", 1, MAX_TILE_AGE_SECS + 1),
    ];
    assert_eq!(prune_cache(&entries, NOW), Some(vec![2, 1]));
    assert_eq!(prune_cache(&entries[..1], NOW), Some(Vec::new()));
    let huge = vec![entry("a", u64::MAX, 1), entry("b", 1, 2)];
    assert_eq!(prune_cache(&huge, NOW), None);
}

#[test]
fn pruning_again_removes_nothing() {
    let entries = vec![
        entry("a", 30, 100),
        entry("stale", 1, MAX_TILE_AGE_SECS + 1),
        entry("b", 40, 300),
        entry("c", 20, 200),
    ];
    let gone = plan_prune(&entries, NOW, MAX_AGE, 60);
    assert_eq!(gone, vec!["stale", "b"]);
    let mut left: Vec<CacheEntry<String>> =
        entries.into_iter().filter(|e| !gone.contains(&e.path)).collect();
    assert!(plan_prune(&left, NOW, MAX_AGE, 60).is_empty());
    left.reverse();
    assert!(plan_prune(&left, NOW, MAX_AGE, 60).is_empty());
}

// --- walking the cache ---

#[test]
fn a_walk_finds_tiles_and_skips_everything_else() {
    let modified = Timestamp { secs: 5, nanos: 0 };
    let known = Some(Metadata { size_bytes: 42, modified: Some(modified) });

    let mut walk = CacheWalk::start("tiles".to_string());
    assert_eq!(walk.next_dir(), Some("tiles".to_string()));

    // Directories are left for later; links, odd files and others are skipped.
    assert_eq!(walk.visit("tiles/3".to_string(), Some(FileKind::Directory), None), None);
    assert_eq!(walk.visit("tiles/4.png".to_string(), Some(FileKind::Directory), Some("png")), None);
    assert_eq!(walk.visit("tiles/link.png".to_string(), Some(FileKind::Symlink), Some("png")), None);
    assert_eq!(walk.visit("tiles/pipe.png".to_string(), Some(FileKind::Other), Some("png")), None);
    assert_eq!(walk.visit("tiles/unknown.png".to_string(), None, Some("png")), None);
    assert_eq!(walk.visit("tiles/note.txt".to_string(), Some(FileKind::File), Some("txt")), None);
    assert_eq!(walk.visit("tiles/bare".to_string(), Some(FileKind::File), None), None);
    assert_eq!(walk.pending, vec!["tiles/3".to_string(), "tiles/4.png".to_string()]);
    assert!(walk.entries.is_empty());

    // A tile whose metadata cannot be read, or has no time, is skipped too.
    for metadata in [None, Some(Metadata { size_bytes: 1, modified: None }), known] {
        let path = walk
            .visit("tiles/a.png".to_string(), Some(FileKind::File), Some("png"))
            .expect("a tile file is wanted");
        walk.record(path, metadata);
    }
    assert_eq!(
        walk.entries,
        vec![CacheEntry { path: "tiles/a.png".to_string(), size_bytes: 42, modified }]
    );

    // The directory found last is read first.
    assert_eq!(walk.next_dir(), Some("tiles/4.png".to_string()));
    assert_eq!(walk.next_dir(), Some("tiles/3".to_string()));
    assert_eq!(walk.next_dir(), None);
    assert_eq!(walk.entries.len(), 1);
}

#[test]
fn a_finished_walk_lists_each_tile_once_at_any_depth() {
    let known = Some(Metadata {
        size_bytes: 1,
        modified: Some(Timestamp { secs: 5, nanos: 0 }),
    });
    let listing = |dir: &str| -> Vec<(&str, FileKind)> {
        match dir {
            "t" => vec![("t/1", FileKind::Directory), ("t/a.png", FileKind::File), ("t/2", FileKind::Directory)],
            "t/1" => vec![("t/1/b.png", FileKind::File), ("t/1/3", FileKind::Directory), ("t/1/l.png", FileKind::Symlink)],
            "t/1/3" => vec![("t/1/3/c.png", FileKind::File)],
            _ => Vec::new(),
        }
    };
    let mut walk = CacheWalk::start("t".to_string());
    let mut read = Vec::new();
    while let Some(dir) = walk.next_dir() {
        for (path, kind) in listing(&dir) {
            let extension = path.strip_suffix(".png").map(|_| "png");
            if let Some(path) = walk.visit(path.to_string(), Some(kind), extension) {
                walk.record(path, known);
            }
        }
        read.push(dir);
    }
    assert_eq!(read, vec!["t", "t/2", "t/1", "t/1/3"]);
    let found: Vec<&str> = walk.entries.iter().map(|e| e.path.as_str()).collect();
    assert_eq!(found, vec!["t/a.png", "t/1/b.png", "t/1/3/c.png"]);
}
