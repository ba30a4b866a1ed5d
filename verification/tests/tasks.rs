use pfsense_dashboard::error::Error;
use pfsense_dashboard::firewall_logs::{Action, InterfaceSet};
use pfsense_dashboard::layout::{self, Grid};
use pfsense_dashboard::log_tailer::{self, TailerAction, TailerEvent, TailerState, BACKOFF_SECONDS};
use pfsense_dashboard::poll::{self, Plan, Stage, Step};
use pfsense_dashboard::text;

fn wan() -> InterfaceSet {
    InterfaceSet::new(&vec!["wan".to_string()])
}

const LINE: &str = "Jan  1 00:00:01,,,,wan,match,block,in,4,,,,,,,1,,,192.0.2.1,203.0.113.1";

#[test]
fn tailer_goes_round_its_states() {
    let set = wan();
    let (state, action) = log_tailer::start();
    assert_eq!(state, TailerState::Connecting);
    assert!(matches!(action, TailerAction::Open));
    let (state, action) = log_tailer::step(state, TailerEvent::Opened, &set);
    assert_eq!(state, TailerState::Streaming);
    assert!(matches!(action, TailerAction::Read));
    let (state, action) = log_tailer::step(state, TailerEvent::Line(LINE.to_string()), &set);
    assert_eq!(state, TailerState::Streaming);
    match action {
        TailerAction::Publish(log) => assert_eq!(log.action, Action::Block),
        other => panic!("{:?}", other),
    }
    let (state, action) = log_tailer::step(state, TailerEvent::Line("noise".to_string()), &set);
    assert_eq!(state, TailerState::Streaming);
    assert!(matches!(action, TailerAction::Read));
    let (state, action) = log_tailer::step(state, TailerEvent::Ended, &set);
    assert_eq!(state, TailerState::Backoff);
    assert!(matches!(action, TailerAction::Sleep(BACKOFF_SECONDS)));
    assert_eq!(BACKOFF_SECONDS, 1);
    let (state, action) = log_tailer::step(state, TailerEvent::Waited, &set);
    assert_eq!(state, TailerState::Connecting);
    assert!(matches!(action, TailerAction::Open));
}

#[test]
fn tailer_exits_on_a_failure_only() {
    let set = wan();
    for state in [TailerState::Connecting, TailerState::Streaming, TailerState::Backoff] {
        let (next, action) = log_tailer::step(state, TailerEvent::Failed, &set);
        assert_eq!(next, state);
        assert!(matches!(action, TailerAction::Exit));
        for event in [
            TailerEvent::Opened,
            TailerEvent::Line(LINE.to_string()),
            TailerEvent::Ended,
            TailerEvent::Waited,
        ] {
            let (_, action) = log_tailer::step(state, event, &set);
            assert!(!matches!(action, TailerAction::Exit));
        }
    }
}

#[test]
fn tailer_passes_over_what_it_does_not_wait_for() {
    let set = wan();
    let (state, action) = log_tailer::step(TailerState::Connecting, TailerEvent::Line(LINE.to_string()), &set);
    assert_eq!(state, TailerState::Connecting);
    assert!(matches!(action, TailerAction::Open));
    let (state, action) = log_tailer::step(TailerState::Backoff, TailerEvent::Ended, &set);
    assert_eq!(state, TailerState::Backoff);
    assert!(matches!(action, TailerAction::Sleep(1)));
    let (state, action) = log_tailer::step(TailerState::Streaming, TailerEvent::Waited, &set);
    assert_eq!(state, TailerState::Streaming);
    assert!(matches!(action, TailerAction::Read));
    assert!(matches!(log_tailer::waiting_for(TailerState::Streaming), TailerAction::Read));
}

fn run(stage: Stage, plan: &Plan) -> Stage {
    match poll::next(stage, plan, Ok(())) {
        Step::Run(stage) => stage,
        Step::Abort(error) => panic!("{:?}", error),
    }
}

#[test]
fn tick_goes_through_its_stages() {
    let plan = Plan { disks: 2, interfaces: 3, services: 1 };
    let mut stage = poll::first();
    let mut seen = vec![stage];
    loop {
        stage = run(stage, &plan);
        if stage == Stage::Sysctls {
            break;
        }
        seen.push(stage);
    }
    assert_eq!(
        seen,
        vec![
            Stage::Sysctls,
            Stage::Disk(0),
            Stage::Disk(1),
            Stage::Link(0),
            Stage::Link(1),
            Stage::Link(2),
            Stage::Traffic,
            Stage::Gateways,
            Stage::Service(0),
            Stage::Render,
            Stage::Sleep,
        ]
    );
}

#[test]
fn tick_without_disks_interfaces_and_services() {
    let plan = Plan { disks: 0, interfaces: 0, services: 0 };
    let stage = run(poll::first(), &plan);
    assert_eq!(stage, Stage::Traffic);
    let stage = run(stage, &plan);
    assert_eq!(stage, Stage::Gateways);
    let stage = run(stage, &plan);
    assert_eq!(stage, Stage::Render);
    let stage = run(stage, &plan);
    assert_eq!(stage, Stage::Sleep);
    assert_eq!(run(stage, &plan), Stage::Sysctls);
    assert_eq!(run(Stage::Disk(usize::MAX), &plan), Stage::Traffic);
}

#[test]
fn failure_ends_the_tick_at_any_stage() {
    let plan = Plan { disks: 1, interfaces: 1, services: 1 };
    for stage in [
        Stage::Sysctls,
        Stage::Disk(0),
        Stage::Link(0),
        Stage::Traffic,
        Stage::Gateways,
        Stage::Service(0),
        Stage::Render,
        Stage::Sleep,
    ] {
        for error in [Error::CorruptBinaryStream, Error::Connection("lost".to_string())] {
            match poll::next(stage, &plan, Err(error.clone())) {
                Step::Abort(reported) => assert_eq!(reported, error),
                Step::Run(next) => panic!("{:?}", next),
            }
        }
    }
}

#[test]
fn rest_of_the_tick_is_slept() {
    assert_eq!(poll::TICK_MICROS, 1_000_000);
    assert_eq!(poll::sleep_for(5_000_000, 5_000_000), 1_000_000);
    assert_eq!(poll::sleep_for(5_000_000, 5_250_000), 750_000);
    assert_eq!(poll::sleep_for(5_000_000, 5_999_999), 1);
    assert_eq!(poll::sleep_for(5_000_000, 6_000_000), 0);
    assert_eq!(poll::sleep_for(5_000_000, 9_000_000), 0);
    assert_eq!(poll::sleep_for(5_000_000, 4_000_000), 2_000_000);
    assert_eq!(poll::sleep_for(u64::MAX, 0), u64::MAX);
    assert_eq!(poll::seconds_between(1_000_000, 3_999_999), Ok(2));
    assert_eq!(poll::seconds_between(7, 7), Ok(0));
    assert_eq!(poll::seconds_between(8, 7), Err(Error::ClockWentBack));
}

fn chars(text: &str) -> Vec<char> {
    text.chars().collect()
}

#[test]
fn text_is_split_into_fields() {
    let fields = |text: &str, sep: char| -> Vec<String> {
        let chars = chars(text);
        text::split_bounds(&chars, sep)
            .into_iter()
            .map(|(from, to)| chars[from..to].iter().collect())
            .collect()
    };
    assert_eq!(fields("a,b,c", ','), vec!["a", "b", "c"]);
    assert_eq!(fields("", ','), vec![""]);
    assert_eq!(fields(",", ','), vec!["", ""]);
    assert_eq!(fields("a,,b,", ','), vec!["a", "", "b", ""]);
    assert_eq!(fields("ä,ö", ','), vec!["ä", "ö"]);
    assert_eq!(fields("a b", ','), vec!["a b"]);
    for text in ["", "a", ",a,", "a b  c", ",,,,"] {
        let expected: Vec<String> = text.split(',').map(|field| field.to_string()).collect();
        assert_eq!(fields(text, ','), expected);
    }
}

#[test]
fn text_is_searched_and_trimmed() {
    assert_eq!(text::find(&chars("abcabc"), &chars("bc")), Some(1));
    assert_eq!(text::find(&chars("abcabc"), &chars("")), Some(0));
    assert_eq!(text::find(&chars("abcabc"), &chars("abcabc")), Some(0));
    assert_eq!(text::find(&chars("abcabc"), &chars("abcabcd")), None);
    assert_eq!(text::find(&chars("abcabc"), &chars("cb")), None);
    assert_eq!(text::find(&chars(""), &chars("")), Some(0));
    assert_eq!(text::find(&chars("äbc"), &chars("c")), Some(2));
    assert!(text::matches_at(&chars("abc"), &chars("bc"), 1));
    assert!(!text::matches_at(&chars("abc"), &chars("bc"), 2));
    assert!(!text::matches_at(&chars("abc"), &chars("bc"), usize::MAX));
    assert_eq!(text::trim_bounds(&chars("  a b \t\n"), 0), (2, 5));
    assert_eq!(text::trim_bounds(&chars("  a b \t\n"), 3), (4, 5));
    assert_eq!(text::trim_bounds(&chars(" \u{a0}\u{3000} "), 0), (4, 4));
    assert_eq!(text::trim_bounds(&chars("abc"), 3), (3, 3));
    assert_eq!(text::trimmed_after("  key:  value  ", "key:"), Some("value".to_string()));
    assert_eq!(text::trimmed_after("  key:  value  ", "kex"), None);
    for sample in ["", " ", " a ", "\ta\u{2003}b\r\n", "\u{1680}x\u{85}", "\u{200b}x\u{200b}"] {
        let all = chars(sample);
        let (from, to) = text::trim_bounds(&all, 0);
        let trimmed: String = all[from..to].iter().collect();
        assert_eq!(trimmed, sample.trim(), "{:?}", sample);
    }
}

#[test]
fn unsigned_numbers_are_read() {
    assert_eq!(text::parse_unsigned(&chars("0"), 10), Some(0));
    assert_eq!(text::parse_unsigned(&chars("10"), 10), Some(10));
    assert_eq!(text::parse_unsigned(&chars("11"), 10), None);
    assert_eq!(text::parse_unsigned(&chars("+7"), 10), Some(7));
    assert_eq!(text::parse_unsigned(&chars("0007"), 10), Some(7));
    assert_eq!(text::parse_unsigned(&chars("18446744073709551615"), u64::MAX), Some(u64::MAX));
    assert_eq!(text::parse_unsigned(&chars("18446744073709551616"), u64::MAX), None);
    assert_eq!(text::parse_unsigned(&chars("99999999999999999999999"), u64::MAX), None);
    for sample in ["", "+", "-", "-0", "1 ", "1.0", "٣", "0x1", "1_000", "+-1", "000", "+000"] {
        assert_eq!(text::parse_unsigned(&chars(sample), u64::MAX), sample.parse::<u64>().ok(), "{:?}", sample);
    }
}

#[test]
fn services_stand_in_a_grid() {
    assert_eq!(layout::service_grid(7, 8), Some(Grid { per_row: 7, rows: 1 }));
    assert_eq!(layout::service_grid(8, 8), Some(Grid { per_row: 7, rows: 2 }));
    assert_eq!(layout::service_grid(14, 8), Some(Grid { per_row: 7, rows: 2 }));
    assert_eq!(layout::service_grid(15, 8), Some(Grid { per_row: 7, rows: 3 }));
    assert_eq!(layout::service_grid(0, 0), Some(Grid { per_row: 35, rows: 0 }));
    assert_eq!(layout::service_grid(3, 68), Some(Grid { per_row: 1, rows: 3 }));
    assert_eq!(layout::service_grid(3, 69), None);
    assert_eq!(layout::service_grid(3, usize::MAX), None);
    assert_eq!(layout::service_grid(usize::MAX, 68), Some(Grid { per_row: 1, rows: usize::MAX }));
    let grid = Grid { per_row: 3, rows: 2 };
    assert_eq!(grid.index(0, 0), Some(0));
    assert_eq!(grid.index(1, 0), Some(1));
    assert_eq!(grid.index(0, 1), Some(2));
    assert_eq!(grid.index(1, 2), Some(5));
    assert_eq!(Grid { per_row: 1, rows: usize::MAX }.index(1, 1), None);
    assert_eq!(Grid { per_row: 1, rows: usize::MAX }.index(0, 2), None);
}

#[test]
fn sizes_are_shown_in_round_units() {
    assert_eq!(layout::mebibytes(8 << 30), 8192);
    assert_eq!(layout::mebibytes(1_048_575), 0);
    assert_eq!(layout::states_max(8 << 30), 819_000);
    assert_eq!(layout::states_max(10_485_759), 0);
    assert_eq!(layout::states_max(u64::MAX), 1_759_218_604_441_000);
}

#[test]
fn white_space_is_what_trimming_removes() {
    for code in 0..=0x10ffffu32 {
        if let Some(c) = char::from_u32(code) {
            assert_eq!(text::is_whitespace(c), c.is_whitespace(), "U+{code:04X}");
        }
    }
    let all: String = (0..=0x10ffffu32).filter_map(char::from_u32).filter(|c| text::is_whitespace(*c)).collect();
    assert_eq!(all.chars().count(), 25);
    assert_eq!(format!("{all}x{all}").trim(), "x");
}
