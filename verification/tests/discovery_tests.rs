use elgato_keylight::discovery::{announcement_matches, first_match, resolve, Announcement};
use elgato_keylight::net::DeviceAddress;
use elgato_keylight::ElgatoError;

fn ann(name: &str, address: &[u8], port: u16) -> Announcement {
    Announcement { name: String::from(name), address: address.to_vec(), port }
}

#[test]
fn matching_is_exact_name_equality() {
    let requested = String::from("Key Light Left");
    assert!(announcement_matches(&requested, &String::from("Key Light Left")));
    assert!(!announcement_matches(&requested, &String::from("Key Light Right")));
    assert!(!announcement_matches(&requested, &String::from("key light left")));
    assert!(!announcement_matches(&requested, &String::from("Key Light Left ")));
}

#[test]
fn first_exact_match_wins_and_nonmatching_are_skipped() {
    let requested = String::from("Key Light Left");
    let announcements = vec![
        ann("Other Device", b"10.0.0.1", 1000),
        ann("Key Light Right", b"10.0.0.2", 2000),
        ann("Key Light Left", b"10.0.0.3", 3000),
        ann("Key Light Left", b"10.0.0.4", 4000),
    ];
    assert_eq!(first_match(&requested, &announcements), Some(2));
}

#[test]
fn no_match_yields_none() {
    let requested = String::from("Key Light Left");
    let announcements = vec![ann("Other", b"10.0.0.1", 1000)];
    assert_eq!(first_match(&requested, &announcements), None);
    assert_eq!(first_match(&requested, &Vec::new()), None);
}

#[test]
fn resolve_returns_address_of_first_match() {
    let requested = String::from("Key Light Left");
    let announcements = vec![
        ann("Other Device", b"10.0.0.1", 1000),
        ann("Key Light Left", b"192.168.1.7", 9123),
        ann("Key Light Left", b"192.168.1.8", 9124),
    ];
    let addr = resolve(&requested, &announcements).unwrap();
    assert_eq!(
        addr,
        DeviceAddress { oct0: 192, oct1: 168, oct2: 1, oct3: 7, port: 9123 }
    );
}

#[test]
fn resolve_without_match_is_discover_error() {
    let requested = String::from("Key Light Left");
    let announcements = vec![ann("Other", b"10.0.0.1", 1000)];
    assert_eq!(
        resolve(&requested, &announcements),
        Err(ElgatoError::DiscoverError)
    );
}

#[test]
fn resolve_with_bad_address_is_ip_error() {
    let requested = String::from("Key Light Left");
    let announcements = vec![ann("Key Light Left", b"not-an-address", 9123)];
    assert_eq!(resolve(&requested, &announcements), Err(ElgatoError::IPError));
}
