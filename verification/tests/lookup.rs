use tzfile::{Reader, Timezone, TzFile};

fn file_bytes(
    times: &[i32],
    indices: &[u8],
    types: &[(i32, u8, u8)],
    pool: &[u8],
    leaps: &[(i32, i32)],
) -> Vec<u8> {
    let mut out = b"TZif\0".to_vec();
    out.extend_from_slice(&[0u8; 15]);
    let counts = [0, 0, leaps.len(), times.len(), types.len(), pool.len()];
    for count in counts {
        out.extend_from_slice(&(count as u32).to_be_bytes());
    }
    for t in times {
        out.extend_from_slice(&t.to_be_bytes());
    }
    out.extend_from_slice(indices);
    for (utoff, dst, abbr) in types {
        out.extend_from_slice(&utoff.to_be_bytes());
        out.push(*dst);
        out.push(*abbr);
    }
    out.extend_from_slice(pool);
    for (since, total) in leaps {
        out.extend_from_slice(&since.to_be_bytes());
        out.extend_from_slice(&total.to_be_bytes());
    }
    out
}

fn sample() -> TzFile {
    let bytes = file_bytes(
        &[-1000, 0, 1000, 2000],
        &[1, 2, 1, 2],
        &[(3208, 0, 0), (3600, 0, 4), (7200, 1, 8)],
        b"LMT\0CET\0CEST\0",
        &[(100, 1), (200, 2), (300, 4)],
    );
    TzFile::read(&mut Reader::new(bytes)).unwrap()
}

fn without_transitions() -> TzFile {
    let bytes = file_bytes(&[], &[], &[(-18000, 0, 0)], b"EST\0", &[]);
    TzFile::read(&mut Reader::new(bytes)).unwrap()
}

fn zone(local_minus_utc: i32, dst: bool, name: &str) -> Timezone {
    Timezone { local_minus_utc, dst, name: name.to_string() }
}

#[test]
fn first_transition_is_at_the_earliest_instant() {
    assert_eq!(sample().transitions()[0].0, i64::MIN);
    assert_eq!(without_transitions().transitions()[0].0, i64::MIN);
    assert_eq!(without_transitions().transitions().len(), 1);
    assert_eq!(without_transitions().transitions()[0].1, zone(-18000, false, "EST"));
}

#[test]
fn tables_ascend() {
    let file = sample();
    let transitions = file.transitions();
    for i in 0..transitions.len() - 1 {
        assert!(transitions[i].0 < transitions[i + 1].0);
    }
    let leaps = file.leap_transitions();
    assert_eq!(leaps.len(), 3);
    for i in 0..leaps.len() - 1 {
        assert!(leaps[i].0 < leaps[i + 1].0);
    }
}

#[test]
fn first_zone_holds_until_the_second_transition() {
    let file = sample();
    let first = file.transitions()[0].1.clone();
    assert_eq!(first, zone(3208, false, "LMT"));
    for at in [i64::MIN, i64::MIN + 1, -1_000_000_000_000, -2000, -1001] {
        assert_eq!(*file.timezone_at(at), first);
    }
    assert_ne!(*file.timezone_at(-1000), first);
    let lone = without_transitions();
    for at in [i64::MIN, i64::MIN + 1, -1, 0, 1, i64::MAX] {
        assert_eq!(*lone.timezone_at(at), zone(-18000, false, "EST"));
    }
}

#[test]
fn zone_of_the_last_transition_up_to_an_instant() {
    let file = sample();
    let cet = zone(3600, false, "CET");
    let cest = zone(7200, true, "CEST");
    assert_eq!(*file.timezone_at(-999), cet);
    assert_eq!(*file.timezone_at(-1), cet);
    assert_eq!(*file.timezone_at(1), cest);
    assert_eq!(*file.timezone_at(999), cest);
    assert_eq!(*file.timezone_at(1001), cet);
    assert_eq!(*file.timezone_at(2001), cest);
    assert_eq!(*file.timezone_at(i64::MAX), cest);
    // A transition is in force from its instant on.
    assert_eq!(*file.timezone_at(-1000), cet);
    assert_eq!(*file.timezone_at(0), cest);
    assert_eq!(*file.timezone_at(1000), cet);
    assert_eq!(*file.timezone_at(2000), cest);
}

#[test]
fn zone_at_each_transition_is_its_own() {
    let file = sample();
    for (instant, zone) in file.transitions() {
        assert_eq!(file.timezone_at(*instant), zone);
    }
}

#[test]
fn no_leap_seconds_before_the_first_entry() {
    let file = sample();
    for at in [i64::MIN, -1, 0, 99] {
        assert_eq!(file.total_leap_seconds_at(at), 0);
    }
    let lone = without_transitions();
    for at in [i64::MIN, 0, i64::MAX] {
        assert_eq!(lone.total_leap_seconds_at(at), 0);
    }
}

#[test]
fn total_of_the_last_leap_entry_up_to_an_instant() {
    let file = sample();
    assert_eq!(file.total_leap_seconds_at(100), 1);
    assert_eq!(file.total_leap_seconds_at(101), 1);
    assert_eq!(file.total_leap_seconds_at(199), 1);
    assert_eq!(file.total_leap_seconds_at(200), 2);
    assert_eq!(file.total_leap_seconds_at(299), 2);
    assert_eq!(file.total_leap_seconds_at(300), 4);
    assert_eq!(file.total_leap_seconds_at(301), 4);
    assert_eq!(file.total_leap_seconds_at(i64::MAX), 4);
}

#[test]
fn totals_are_given_as_they_stand() {
    let bytes = file_bytes(&[], &[], &[(0, 0, 0)], b"UTC\0", &[(10, 5), (20, -7), (30, 5)]);
    let file = TzFile::read(&mut Reader::new(bytes)).unwrap();
    assert_eq!(file.total_leap_seconds_at(9), 0);
    assert_eq!(file.total_leap_seconds_at(15), 5);
    assert_eq!(file.total_leap_seconds_at(25), -7);
    assert_eq!(file.total_leap_seconds_at(35), 5);
}
