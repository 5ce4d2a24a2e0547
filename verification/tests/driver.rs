use trng_driver::{ClockControl, ErrorKind, Rng, RngExt, Sample, Status, Trng};

fn sample(clock_error: bool, seed_error: bool, data_ready: bool, word: u32) -> Sample {
    Sample { status: Status { clock_error, seed_error, data_ready }, word }
}

fn ready(word: u32) -> Sample {
    sample(false, false, true, word)
}

fn idle() -> Sample {
    sample(false, false, false, 0)
}

fn init_over(script: Vec<Sample>) -> (Rng, ClockControl) {
    let trng = Trng::new(script);
    let mut clocks = ClockControl::new(false, 2);
    assert!(trng.init_ready());
    let rng = trng.init(&mut clocks);
    (rng, clocks)
}

#[test]
fn init_runs_clock_sequence() {
    let trng = Trng::new(vec![idle(), idle(), ready(7), ready(9)]);
    let mut clocks = ClockControl::new(false, 3);
    assert!(!clocks.pll_is_on());
    let mut rng = trng.init(&mut clocks);
    assert!(clocks.pll_is_on());
    assert!(clocks.pll_is_locked());
    assert!(clocks.rng_clock_is_on());
    assert!(clocks.rng_reset_was_done());
    // warm-up consumed the two idle polls and the first ready sample
    assert_eq!(rng.position(), 3);
    assert_eq!(rng.get_rand(), Ok(9));
}

#[test]
fn init_with_pll_already_running() {
    let trng = Trng::new(vec![ready(1), ready(2)]);
    let mut clocks = ClockControl::new(true, 0);
    // one poll locks the already-enabled PLL
    assert!(clocks.poll_pll_ready());
    let mut rng = trng.init(&mut clocks);
    assert!(clocks.pll_is_locked());
    assert_eq!(rng.get_rand(), Ok(2));
}

#[test]
fn init_ready_rejects_clock_error_before_ready() {
    let safe = Trng::new(vec![idle(), ready(5)]);
    assert!(safe.init_ready());
    let unsafe_warmup = Trng::new(vec![idle(), sample(true, false, false, 0), ready(5)]);
    assert!(!unsafe_warmup.init_ready());
    let never_ready = Trng::new(vec![idle(), idle()]);
    assert!(!never_ready.init_ready());
    // a sample both ready and clock-erroring exits warm-up before the check
    let ready_and_error = Trng::new(vec![sample(true, false, true, 3)]);
    assert!(ready_and_error.init_ready());
}

#[test]
fn word_reader_clock_error_supersedes_all() {
    let (mut rng, _) = init_over(vec![ready(0), sample(true, true, true, 42)]);
    assert_eq!(rng.get_rand(), Err(ErrorKind::ClockError));
}

#[test]
fn word_reader_seed_error_when_clock_clear() {
    let (mut rng, _) = init_over(vec![ready(0), sample(false, true, true, 42)]);
    assert_eq!(rng.get_rand(), Err(ErrorKind::SeedError));
}

#[test]
fn word_reader_returns_word_when_faults_clear() {
    let (mut rng, _) = init_over(vec![ready(0), sample(false, false, true, 42)]);
    assert_eq!(rng.get_rand(), Ok(42));
}

#[test]
fn scenario_word_after_two_idle_polls() {
    // status sequence [not-ready, not-ready, ready(0xDEADBEEF)]
    let (mut rng, _) = init_over(vec![ready(0), idle(), idle(), ready(0xDEADBEEF)]);
    let before = rng.position();
    assert_eq!(rng.get_rand(), Ok(0xDEADBEEF));
    // exactly two idle polls, then the resolving poll
    assert_eq!(rng.position(), before + 3);
}

#[test]
fn scenario_clock_error_on_first_poll() {
    let (mut rng, _) = init_over(vec![ready(0), sample(true, false, false, 0)]);
    let before = rng.position();
    assert_eq!(rng.get_rand(), Err(ErrorKind::ClockError));
    // the error is reported on the very first poll, no additional ones
    assert_eq!(rng.position(), before + 1);
}

#[test]
fn fill_fault_free_reads_one_word_per_four_bytes() {
    let words = [0x01020304u32, 0x05060708, 0x090A0B0C];
    let (mut rng, _) = init_over(vec![ready(0), ready(words[0]), ready(words[1]), ready(
        words[2],
    )]);
    let before = rng.position();
    let mut buf = vec![0u8; 10];
    assert_eq!(rng.try_fill_bytes(&mut buf), Ok(()));
    // ceil(10 / 4) = 3 word reads, each one poll on this fault-free script
    assert_eq!(rng.position(), before + 3);
    let mut expected = Vec::new();
    expected.extend_from_slice(&words[0].to_ne_bytes());
    expected.extend_from_slice(&words[1].to_ne_bytes());
    expected.extend_from_slice(&words[2].to_ne_bytes()[..2]);
    assert_eq!(buf, expected);
}

#[test]
fn fill_zero_length_touches_nothing() {
    let (mut rng, _) = init_over(vec![ready(0), ready(1)]);
    let before = rng.position();
    let mut buf: Vec<u8> = Vec::new();
    assert_eq!(rng.try_fill_bytes(&mut buf), Ok(()));
    assert_eq!(rng.position(), before);
    assert!(buf.is_empty());
}

#[test]
fn scenario_six_byte_fill_takes_native_order_prefix() {
    // word stream [0x11223344, 0x55667788] into a 6-byte buffer
    let (mut rng, _) = init_over(vec![ready(0), ready(0x11223344), ready(0x55667788)]);
    let mut buf = vec![0u8; 6];
    assert_eq!(rng.try_fill_bytes(&mut buf), Ok(()));
    let first = 0x11223344u32.to_ne_bytes();
    let second = 0x55667788u32.to_ne_bytes();
    assert_eq!(&buf[..4], &first[..]);
    assert_eq!(&buf[4..], &second[..2]);
}

#[test]
fn fill_stops_at_fault_and_leaves_rest_untouched() {
    let (mut rng, _) = init_over(vec![ready(0), ready(0xAABBCCDD), sample(
        false,
        true,
        false,
        0,
    )]);
    let mut buf = vec![0xFFu8; 8];
    assert_eq!(rng.try_fill_bytes(&mut buf), Err(ErrorKind::SeedError));
    assert_eq!(&buf[..4], &0xAABBCCDDu32.to_ne_bytes()[..]);
    assert_eq!(&buf[4..], &[0xFF, 0xFF, 0xFF, 0xFF]);
}

#[test]
fn double_word_is_high_then_low() {
    let (mut rng, _) = init_over(vec![ready(0), ready(0x11111111), ready(0x22222222)]);
    assert_eq!(rng.next_u64(), 0x1111111122222222u64);
}

#[test]
fn next_u32_returns_the_word() {
    let (mut rng, _) = init_over(vec![ready(0), ready(0xCAFEF00D)]);
    assert_eq!(rng.next_u32(), 0xCAFEF00D);
}

#[test]
fn fill_bytes_fills_whole_buffer() {
    let (mut rng, _) = init_over(vec![ready(0), ready(0x01010101), ready(0x02020202)]);
    let mut buf = vec![0u8; 8];
    rng.fill_bytes(&mut buf);
    let mut expected = Vec::new();
    expected.extend_from_slice(&0x01010101u32.to_ne_bytes());
    expected.extend_from_slice(&0x02020202u32.to_ne_bytes());
    assert_eq!(buf, expected);
}

#[test]
fn release_then_reinit_round_trip() {
    let trng = Trng::new(vec![ready(1), ready(2), ready(3), ready(4)]);
    let mut clocks = ClockControl::new(false, 1);
    let mut rng = trng.init(&mut clocks);
    assert_eq!(rng.get_rand(), Ok(2));
    let handle = rng.release();
    assert!(handle.is_enabled());
    assert!(handle.init_ready());
    let mut rng = handle.init(&mut clocks);
    assert_eq!(rng.get_rand(), Ok(4));
}

#[test]
fn can_read_and_fill_supported_report_the_script() {
    let (rng, _) = init_over(vec![ready(0), ready(1), idle()]);
    assert!(rng.can_read());
    assert!(rng.fill_supported(4));
    // a second word read would spin forever: only one resolving sample left
    assert!(!rng.fill_supported(5));
    let (starved, _) = init_over(vec![ready(0), idle(), idle()]);
    assert!(!starved.can_read());
    assert!(starved.fill_supported(0));
    assert!(!starved.fill_supported(1));
    // a fault ahead cuts any fill short, however long the buffer
    let (faulted, _) = init_over(vec![ready(0), ready(1), sample(true, false, false, 0)]);
    assert!(faulted.fill_supported(400));
}

#[test]
fn error_codes_are_reserved_and_distinct() {
    assert_eq!(ErrorKind::ClockError.code(), 2);
    assert_eq!(ErrorKind::SeedError.code(), 4);
    assert_eq!(ErrorKind::ClockError.generic_code(), 0xC000_0002);
    assert_eq!(ErrorKind::SeedError.generic_code(), 0xC000_0004);
    assert!(ErrorKind::ClockError.generic_code() >= rand_core::Error::CUSTOM_START);
}

#[test]
fn generic_error_carries_reserved_code() {
    let err = ErrorKind::ClockError.to_generic_error();
    assert_eq!(err.code().map(|c| c.get()), Some(0xC000_0002));
    let err = ErrorKind::SeedError.to_generic_error();
    assert_eq!(err.code().map(|c| c.get()), Some(0xC000_0004));
}

#[test]
fn read_fills_or_reports_generic_error() {
    let (mut rng, _) = init_over(vec![ready(0), ready(0x31323334), sample(
        true,
        false,
        false,
        0,
    )]);
    let mut buf = vec![0u8; 4];
    assert!(rng.read(&mut buf).is_ok());
    assert_eq!(buf, 0x31323334u32.to_ne_bytes().to_vec());
    let mut buf = vec![0u8; 4];
    let err = rng.read(&mut buf).unwrap_err();
    assert_eq!(err.code().map(|c| c.get()), Some(0xC000_0002));
}
