use tmdb2seer::config::{is_development_mode, validate_api_keys};
use tmdb2seer::error::validate_csrf_token;
use tmdb2seer::eviction::oldest_indices;
use tmdb2seer::order::newest_first;
use tmdb2seer::media::{is_requested, media_kind, poster_url, release_year, rotten_tomatoes, MediaKind};
use tmdb2seer::timestamp::{deserialize, serialize};
use tmdb2seer::{get_template_path, Error, MediaRequest, OMDBResponse, Rating, SecurityHeaders, SecurityHeadersLayer};

#[test]
fn na_ratings_are_dropped() {
    assert_eq!(OMDBResponse::clean_rating(&Some("N/A".to_string())), None);
    assert_eq!(OMDBResponse::clean_rating(&Some("7.9".to_string())), Some("7.9".to_string()));
    assert_eq!(OMDBResponse::clean_rating(&None), None);
    let r = OMDBResponse {
        imdb_rating: Some("N/A".to_string()),
        metascore: Some("81".to_string()),
        ratings: Some(vec![Rating { source: "Metacritic".to_string(), value: "81/100".to_string() }]),
    };
    assert_eq!(r.get_imdb_rating(), None);
    assert_eq!(r.get_metascore(), Some("81".to_string()));
    let c = r.cleaned();
    assert_eq!(c.imdb_rating, None);
    assert_eq!(c.metascore.as_deref(), Some("81"));
    assert_eq!(c.ratings.unwrap().len(), 1);
}

#[test]
fn elapsed_seconds_round_trip() {
    assert_eq!(serialize(40, 100), 60);
    assert_eq!(serialize(140, 100), 0);
    assert_eq!(deserialize(60, 100), Some(40));
    assert_eq!(deserialize(101, 100), None);
    assert_eq!(deserialize(serialize(7, 1000), 5000), Some(4007));
}

#[test]
fn template_path_by_build() {
    assert_eq!(get_template_path(true), "templates");
    assert_eq!(get_template_path(false), "dist/templates");
}

#[test]
fn security_headers_listed() {
    let layer = SecurityHeadersLayer::new();
    let wrapped = layer.layer(5u8);
    assert_eq!(wrapped.inner, 5);
    let h = SecurityHeaders::<u8>::headers();
    assert_eq!(h.len(), 6);
    assert_eq!(h[0], ("X-Content-Type-Options", "nosniff"));
    assert_eq!(h[1], ("X-Frame-Options", "SAMEORIGIN"));
    assert_eq!(h[5], ("Cache-Control", "no-store, max-age=0"));
    assert!(h[3].1.starts_with("default-src 'self';"));
}

#[test]
fn api_keys_are_required() {
    assert_eq!(validate_api_keys("", "k"), Err("TMDB API key is required".to_string()));
    assert_eq!(validate_api_keys("", ""), Err("TMDB API key is required".to_string()));
    assert_eq!(validate_api_keys("t", ""), Err("Jellyseerr API key is required".to_string()));
    assert_eq!(validate_api_keys("t", "k"), Ok(()));
}

#[test]
fn run_mode() {
    assert!(is_development_mode(None));
    assert!(is_development_mode(Some("development")));
    assert!(!is_development_mode(Some("production")));
}

#[test]
fn csrf_token_checks() {
    match validate_csrf_token(None) {
        Err(Error::CSRF(m)) => assert_eq!(m, "Missing CSRF token"),
        _ => panic!("a missing token is refused"),
    }
    match validate_csrf_token(Some(b"")) {
        Err(Error::CSRF(m)) => assert_eq!(m, "Empty CSRF token received"),
        _ => panic!("an empty token is refused"),
    }
    assert!(validate_csrf_token(Some(b"abc")).is_ok());
}

#[test]
fn error_messages() {
    assert_eq!(Error::Api("x".to_string()).message(), "API error: x");
    assert_eq!(Error::Config("bad".to_string()).message(), "Configuration error: bad");
    assert_eq!(Error::Cache("c".to_string()).message(), "Cache error: c");
    assert_eq!(Error::CSRF("t".to_string()).message(), "CSRF error: t");
    assert_eq!(Error::Request("r".to_string()).message(), "Request error: r");
    assert_eq!(Error::Parse("p".to_string()).message(), "Parse error: p");
    assert_eq!(Error::Jellyseerr("j".to_string()).message(), "Jellyseerr error: j");
}

#[test]
fn media_types() {
    assert_eq!(media_kind("movie").ok(), Some(MediaKind::Movie));
    assert_eq!(media_kind("tv").ok(), Some(MediaKind::Tv));
    match media_kind("book") {
        Err(Error::Jellyseerr(m)) => assert_eq!(m, "Error: Invalid media type: book"),
        _ => panic!("only movies and shows can be requested"),
    }
    let req = MediaRequest { seasons: Some(vec![1, 2]) };
    assert_eq!(req.clone().seasons_for("tv"), Some(vec![1, 2]));
    assert_eq!(req.seasons_for("movie"), None);
}

#[test]
fn requested_titles_are_recognised() {
    let requested = vec![("movie".to_string(), 10), ("tv".to_string(), 20)];
    assert!(is_requested(&requested, &"movie".to_string(), 10));
    assert!(is_requested(&requested, &"tv".to_string(), 20));
    assert!(!is_requested(&requested, &"tv".to_string(), 10));
    assert!(!is_requested(&vec![], &"tv".to_string(), 20));
}

#[test]
fn release_presentation() {
    assert_eq!(poster_url(Some("/a.jpg".to_string())), "https://image.tmdb.org/t/p/w500/a.jpg");
    assert_eq!(poster_url(None), "https://via.placeholder.com/500x750");
    assert_eq!(release_year("2024-05-17"), "2024");
    assert_eq!(release_year("2024"), "2024");
    assert_eq!(release_year(""), "");
    let ratings = vec![
        Rating { source: "Internet Movie Database".to_string(), value: "7/10".to_string() },
        Rating { source: "Rotten Tomatoes".to_string(), value: "93%".to_string() },
        Rating { source: "Rotten Tomatoes".to_string(), value: "1%".to_string() },
    ];
    assert_eq!(rotten_tomatoes(&ratings), Some("93%".to_string()));
    assert_eq!(rotten_tomatoes(&ratings[..1].to_vec()), None);
}

#[test]
fn oldest_positions_chosen() {
    let ts = vec![50, 10, 40, 10, 30];
    let mut sel = oldest_indices(&ts, None, 3);
    sel.sort();
    assert_eq!(sel, vec![1, 3, 4]);
    let mut sel = oldest_indices(&ts, Some(1), 2);
    sel.sort();
    assert_eq!(sel, vec![3, 4]);
    assert!(oldest_indices(&ts, None, 0).is_empty());
}

#[test]
fn releases_newest_first_and_stable() {
    let dates: Vec<String> = ["2024-01-02", "2023-12-31", "2024-01-02", "", "2024-01-10"]
        .iter()
        .map(|s| s.to_string())
        .collect();
    assert_eq!(newest_first(&dates), vec![4, 0, 2, 1, 3]);
    assert!(newest_first(&vec![]).is_empty());
    let same = vec!["x".to_string(), "x".to_string(), "x".to_string()];
    assert_eq!(newest_first(&same), vec![0, 1, 2]);
    let prefix = vec!["2024".to_string(), "2024-05".to_string()];
    assert_eq!(newest_first(&prefix), vec![1, 0]);
}
