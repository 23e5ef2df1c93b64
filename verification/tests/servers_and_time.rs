use std::time::{Duration, Instant, SystemTime};

use server_common::clock::{get_expired_time, now, whole_seconds, EXPIRY_SECONDS};
use server_common::servers::{get_servers, listed_servers, server_lookup, test_if_valid_server};
use server_common::update::{announced_release, release_of};

#[test]
fn lookup_has_a_port() {
    assert_eq!(server_lookup("example.com"), "example.com:0");
    assert_eq!(server_lookup("example.com:21116"), "example.com:21116");
    assert_eq!(server_lookup("::1"), "::1");
    assert_eq!(server_lookup(""), ":0");
}

#[test]
fn first_address_found_counts() {
    assert_eq!(test_if_valid_server(Some(&vec![7, 8])), Some(7));
    assert_eq!(test_if_valid_server::<u8>(Some(&vec![])), None);
    assert_eq!(test_if_valid_server::<u8>(None), None);
}

#[test]
fn blank_and_invalid_servers_are_left_out() {
    let list = "a,,b:1,bad,c,";
    assert_eq!(listed_servers(list), vec!["a", "b:1", "bad", "c"]);
    assert_eq!(get_servers(list, &vec![true, true, false, true]), vec!["a", "b:1", "c"]);
    assert_eq!(get_servers(list, &vec![true, true, true, true]), listed_servers(list));
    assert!(get_servers("", &vec![]).is_empty());
    assert_eq!(listed_servers(" ,a "), vec![" ", "a "]);
}

#[test]
fn release_follows_the_last_slash() {
    assert_eq!(release_of("https://example.com/releases/tag/1.4.2"), "1.4.2");
    assert_eq!(release_of("1.4.2"), "1.4.2");
    assert_eq!(release_of("https://example.com/"), "");
    assert_eq!(release_of(""), "");
}

#[test]
fn only_later_releases_are_announced() {
    assert_eq!(announced_release("2".to_string(), 2, 1), Some("2".to_string()));
    assert_eq!(announced_release("2".to_string(), 2, 2), None);
    assert_eq!(announced_release("2".to_string(), -2, 2), None);
}

#[test]
fn seconds_are_whole() {
    assert_eq!(whole_seconds(Ok(Duration::from_millis(7999))), 7);
    let early = SystemTime::UNIX_EPOCH;
    let late = early + Duration::from_secs(10);
    assert_eq!(whole_seconds(late.duration_since(early)), 10);
    assert_eq!(whole_seconds(early.duration_since(late)), 0);
}

#[test]
fn clock_counts_from_1970() {
    let before = SystemTime::now().duration_since(SystemTime::UNIX_EPOCH).unwrap().as_secs();
    let shown = now();
    let after = SystemTime::now().duration_since(SystemTime::UNIX_EPOCH).unwrap().as_secs();
    assert!(before <= shown && shown <= after);
}

#[test]
fn expired_time_is_an_hour_ago() {
    assert_eq!(EXPIRY_SECONDS, 3600);
    let before = Instant::now();
    let expired = get_expired_time();
    let after = Instant::now();
    match before.checked_sub(Duration::from_secs(3600)) {
        Some(hour_ago) => {
            assert!(hour_ago <= expired);
            assert!(expired.elapsed() >= Duration::from_secs(3600));
        }
        None => assert!(expired <= after),
    }
}

fn good_servers(list: &str) -> Vec<String> {
    let valid = listed_servers(list).iter().map(|host| !host.contains("bad")).collect();
    get_servers(list, &valid)
}

#[test]
fn joined_lists_give_all_servers() {
    for (a, b) in [("a,bad,b", ",c"), ("", "x"), ("bad", ""), ("a", "a")] {
        let mut both = good_servers(a);
        both.extend(good_servers(b));
        assert_eq!(good_servers(&format!("{},{}", a, b)), both);
        assert_eq!(good_servers(&both.join(",")), both);
    }
}
