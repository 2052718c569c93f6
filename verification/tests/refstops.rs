use runalyzer::geometry::GeoPos;
use runalyzer::refstops::{find_from_stop, find_to_stop, LineStop};

fn stop(name: &str) -> LineStop {
    LineStop { name: name.to_string(), pos: GeoPos { lat_udeg: 0, lon_udeg: 0 } }
}

#[test]
fn the_from_reference_is_matched_by_edit_distance() {
    let stops = vec![stop("Hauptbahnhof"), stop("Marktplatz"), stop("Messegelaende")];
    // A misspelled tag still finds the closest stop name.
    let idx = find_from_stop(&"Marktplats".to_string(), &stops);
    assert_eq!(idx, Some(1));
    assert_eq!(find_from_stop(&"x".to_string(), &Vec::new()), None);
}

#[test]
fn equally_distant_names_fall_to_the_first() {
    let stops = vec![stop("aa"), stop("ab"), stop("ba")];
    // "ab" and the others differ from "bb" by distances 2, 1, 1; the
    // first of the two equally near names wins.
    let idx = find_from_stop(&"bb".to_string(), &stops);
    assert_eq!(idx, Some(1));
}

#[test]
fn the_to_reference_is_matched_exactly() {
    let stops = vec![stop("Nord"), stop("Sued"), stop("Sued")];
    assert_eq!(find_to_stop(&"Sued".to_string(), &stops), Some(1));
    assert_eq!(find_to_stop(&"West".to_string(), &stops), None);
}
