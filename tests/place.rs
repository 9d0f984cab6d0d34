use egg_mode::error::Error;
use egg_mode::escape::{escape_text, unescape_text};
use egg_mode::params::ParamList;
use egg_mode::place::{
    parse_url, request_url, reverse_geocode_url, search_ip, search_query, search_url, show,
    PlaceQuery, PlaceType, SearchBuilder, SEARCH,
};

fn get(p: &ParamList, k: &str) -> Option<String> {
    p.get(&k.to_string()).cloned()
}

#[test]
fn parse_url_reads_parameters() {
    let p = parse_url("https://x.test/a.json", "https://x.test/a.json?query=columbia&granularity=admin").unwrap();
    assert_eq!(p.len(), 2);
    assert_eq!(get(&p, "query"), Some("columbia".to_string()));
    assert_eq!(get(&p, "granularity"), Some("admin".to_string()));
    assert_eq!(get(&p, "ip"), None);
}

#[test]
fn parse_url_later_key_wins_and_extra_parts_ignored() {
    let p = parse_url("b", "b?k=1&k=2=3&e=?ignored").unwrap();
    assert_eq!(p.len(), 2);
    assert_eq!(get(&p, "k"), Some("2".to_string()));
    assert_eq!(get(&p, "e"), Some(String::new()));
}

#[test]
fn parse_url_rejects_bad_urls() {
    assert_eq!(parse_url("b", "c?k=1").unwrap_err(), Error::BadUrl);
    assert_eq!(parse_url("b", "b").unwrap_err(), Error::BadUrl);
    assert_eq!(parse_url("b", "b?").unwrap_err(), Error::BadUrl);
    assert_eq!(parse_url("b", "b?k=1&novalue").unwrap_err(), Error::BadUrl);
    assert_eq!(search_url("https://api.twitter.com/1.1/geo/reverse_geocode.json?lat=1&long=2").unwrap_err(), Error::BadUrl);
    assert!(reverse_geocode_url("https://api.twitter.com/1.1/geo/reverse_geocode.json?lat=1&long=2").is_ok());
}

#[test]
fn search_url_round_trip() {
    let b = search_query("columbia").granularity(PlaceType::Admin).contained_within("96683cc9126741d1".to_string());
    let url = b.url();
    assert_eq!(url, "https://api.twitter.com/1.1/geo/search.json?query=columbia&granularity=admin&contained_within=96683cc9126741d1");
    let replay = search_url(&url).unwrap();
    let original = b.params();
    assert_eq!(replay.len(), original.len());
    for i in 0..original.len() {
        let (k, v) = original.entry(i);
        assert_eq!(get(&replay, k), Some(v.to_string()));
    }
}

#[test]
fn search_point_and_ip_round_trip() {
    let b = SearchBuilder::new(PlaceQuery::LatLon("51.507222".to_string(), "-0.1275".to_string())).granularity(PlaceType::City);
    let replay = search_url(&b.url()).unwrap();
    assert_eq!(get(&replay, "lat"), Some("51.507222".to_string()));
    assert_eq!(get(&replay, "long"), Some("-0.1275".to_string()));
    assert_eq!(get(&replay, "granularity"), Some("city".to_string()));
    let ip = search_ip("74.125.19.104");
    let replay = parse_url(SEARCH, &ip.url()).unwrap();
    assert_eq!(replay.len(), 1);
    assert_eq!(get(&replay, "ip"), Some("74.125.19.104".to_string()));
}

#[test]
fn request_url_joins_in_order() {
    let mut p = ParamList::new();
    p.add_param("a".to_string(), "1".to_string());
    p.add_param("b".to_string(), "2".to_string());
    p.add_param("a".to_string(), "3".to_string());
    assert_eq!(request_url("e", &p), "e?a=3&b=2");
}

#[test]
fn show_builds_place_url() {
    assert_eq!(show("18810aa5b43e76c7"), "https://api.twitter.com/1.1/geo/id/18810aa5b43e76c7.json");
}

#[test]
fn place_type_names() {
    assert_eq!(PlaceType::Point.name(), "poi");
    assert_eq!(PlaceType::Neighborhood.name(), "neighborhood");
    assert_eq!(PlaceType::Country.name(), "country");
}

#[test]
fn search_with_separators_round_trips() {
    let b = search_query("a&b=c?d%e");
    let url = b.url();
    assert_eq!(url, "https://api.twitter.com/1.1/geo/search.json?query=a%26b%3Dc%3Fd%25e");
    let replay = search_url(&url).unwrap();
    assert_eq!(replay.len(), 1);
    assert_eq!(get(&replay, "query"), Some("a&b=c?d%e".to_string()));
}

#[test]
fn escaping_texts() {
    assert_eq!(escape_text("x=1&y?%"), "x%3D1%26y%3F%25");
    assert_eq!(unescape_text("x%3D1%26y%3F%25"), "x=1&y?%");
    assert_eq!(unescape_text("100%"), "100%");
    assert_eq!(unescape_text("%2"), "%2");
    assert_eq!(unescape_text("%20caf\u{e9}"), "%20caf\u{e9}");
    assert_eq!(unescape_text(&escape_text("%25")), "%25");
}
