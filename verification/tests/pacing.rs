use rpc_replay::config::{choose_tls, parse_count, TlsChoice, TlsFiles};
use rpc_replay::pacing::{Pacer, Tick};
use rpc_replay::tally::Tally;

#[test]
fn ticks_of_a_trace() {
    let mut pacer = Pacer::new();
    assert_eq!(pacer.observe(0), Tick::Current);
    assert_eq!(pacer.observe(100), Tick::Start);
    assert_eq!(pacer.observe(100), Tick::Current);
    assert_eq!(pacer.observe(103), Tick::Advance(3));
    assert_eq!(pacer.observe(50), Tick::Current);
    assert_eq!(pacer.observe(104), Tick::Advance(1));
    assert_eq!(pacer.observe(u64::MAX), Tick::Advance(u64::MAX - 104));
}

#[test]
fn pauses_add_up_to_the_time_of_the_trace() {
    let mut pacer = Pacer::new();
    let mut total = 0;
    for ts in [7, 7, 9, 8, 20, 3, 20, 21] {
        if let Tick::Advance(secs) = pacer.observe(ts) {
            total += secs;
        }
    }
    assert_eq!(total, 21 - 7);
}

#[test]
fn what_is_due() {
    let mut pacer = Pacer::new();
    assert!(!pacer.early(0));
    assert!(!pacer.delay(1000, 400));
    assert!(pacer.early(999));
    assert!(!pacer.early(1000));
    assert!(pacer.delay(500, 1501));
    assert!(!pacer.delay(1, 1501));
    assert!(pacer.early(1500));
    assert!(!pacer.early(1501));
}

#[test]
fn pauses_have_an_end() {
    let mut pacer = Pacer::new();
    assert!(pacer.can_delay(u128::MAX));
    pacer.delay(1, 0);
    assert!(!pacer.can_delay(u128::MAX));
    assert!(pacer.can_delay(u128::MAX - 1));
}

#[test]
fn tallies() {
    let mut tally = Tally::new();
    assert_eq!(tally, Tally { sent: 0, skip: 0 });
    tally.count_sent();
    tally.count_sent();
    tally.count_skip();
    assert_eq!(tally, Tally { sent: 2, skip: 1 });
}

#[test]
fn encryption_takes_all_files_or_none() {
    assert_eq!(
        choose_tls(Some("k"), Some("c"), Some("r")),
        TlsChoice::Files(TlsFiles { key: "k", cert: "c", chain: "r" })
    );
    assert_eq!(choose_tls(None, None, None), TlsChoice::Plain);
    for given in 1..7 {
        let file = |bit: i32| if given & bit != 0 { Some("f") } else { None };
        assert_eq!(choose_tls(file(1), file(2), file(4)), TlsChoice::Incomplete);
    }
}

#[test]
fn counts_on_the_command_line() {
    assert_eq!(parse_count(None), Some(1));
    assert_eq!(parse_count(Some("0")), Some(0));
    assert_eq!(parse_count(Some("16")), Some(16));
    assert_eq!(parse_count(Some("")), None);
    assert_eq!(parse_count(Some("-1")), None);
    assert_eq!(parse_count(Some("four")), None);
}
