use fastcull::app::startup::{configure, Options};
use fastcull::arw::{EmbeddedPreview, Error, IoFailure, MemorySource, PreviewReader};
use fastcull::bench::args::{parse_unsigned, Argument};
use fastcull::bench::contention::{self, phase_name, trial_order};
use fastcull::bench::extract::{self, describe, input_error, read_first, Refusal};
use fastcull::bench::filmstrip::{
    self, conditions, escaped, select_preview, Follower, Strategy, ThumbCache, THUMB_CACHE_BYTES,
};
use fastcull::bench::order::{
    percentile_index, shuffle, shuffled_order, spread_indices, visible_window, ShuffleRng,
};
use fastcull::bench::pipeline::{self, Decoders, IoTotals, Order, Tries, DEFAULT_LIMIT};
use fastcull::image::decoder::Backend;
use fastcull::path::PhotoPath;

fn words(words: &[&str]) -> Vec<Argument> {
    words
        .iter()
        .map(|word| Argument::Text(word.to_string()))
        .collect()
}

fn percentile(sorted: &[f64], percent: usize) -> Option<f64> {
    percentile_index(sorted.len(), percent).map(|index| sorted[index])
}

#[test]
fn percentiles_use_nearest_rank_and_handle_small_samples() {
    assert_eq!(percentile(&[], 50), None);
    assert_eq!(percentile(&[7.0], 99), Some(7.0));
    let samples: Vec<f64> = (1..=100).map(f64::from).collect();
    assert_eq!(percentile(&samples, 50), Some(50.0));
    assert_eq!(percentile(&samples, 95), Some(95.0));
    assert_eq!(percentile(&samples, 99), Some(99.0));
    assert_eq!(percentile(&samples, 100), Some(100.0));
}

#[test]
fn nearest_rank_percentiles_are_defined_for_small_samples() {
    assert_eq!(percentile(&[], 95).unwrap_or(0.0), 0.0);
    assert_eq!(percentile(&[1.0, 2.0, 3.0, 4.0], 50), Some(2.0));
    assert_eq!(percentile(&[1.0, 2.0, 3.0, 4.0], 95), Some(4.0));
}

#[test]
fn shuffle_is_deterministic_and_preserves_all_indices() {
    let original: Vec<usize> = (0..100).collect();
    let mut a = original.clone();
    let mut b = original.clone();
    shuffle(&mut a, &mut ShuffleRng(42));
    shuffle(&mut b, &mut ShuffleRng(42));
    assert_eq!(a, b);
    assert_ne!(a, original);
    a.sort_unstable();
    assert_eq!(a, original);
    shuffle(&mut vec![], &mut ShuffleRng(0));
    shuffle(&mut vec![0], &mut ShuffleRng(0));
}

#[test]
fn random_numbers_are_those_of_splitmix() {
    // The first outputs of SplitMix64 from the state zero.
    let mut rng = ShuffleRng(0);
    assert_eq!(rng.next(), 0xe220a8397b1dcdaf);
    assert_eq!(rng.next(), 0x6e789e6aa1b965f4);
    assert_eq!(rng.next(), 0x06c45d188009454f);
    for bound in 1..50 {
        assert!(rng.below(bound) < bound);
    }
}

#[test]
fn args_reject_unbounded_work_and_unknown_options() {
    for arguments in [
        vec!["photos", "--limit", "0"],
        vec!["photos", "--limit", "100001"],
        vec!["photos", "--passes", "101"],
        vec!["photos", "--order", "invalid"],
        vec!["photos", "--decoder", "invalid"],
        vec!["photos", "--unknown"],
    ] {
        assert!(pipeline::Args::parse(&words(&arguments)).is_err());
    }
}

#[test]
fn default_args_and_explicit_options() {
    let defaults = pipeline::Args::parse(&words(&["photos"])).unwrap().unwrap();
    assert_eq!(defaults.limit, DEFAULT_LIMIT);
    assert_eq!(defaults.order, Order::Both);
    assert_eq!(defaults.decoder, Decoders::Nothing);
    assert_eq!(defaults.decoder.name(), "none");
    assert_eq!(defaults.scale, 1);
    let arguments = [
        "--passes", "2", "--limit", "12", "--seed", "0", "--order", "random", "--", "-photos",
    ];
    let args = pipeline::Args::parse(&words(&arguments)).unwrap().unwrap();
    assert_eq!(args.path.display(), "-photos");
    assert_eq!(args.order, Order::Random);
    assert_eq!(args.passes, 2);
    assert_eq!(args.seed, 0);
    assert!(pipeline::Args::parse(&words(&["--help"])).unwrap().is_none());
}

#[test]
fn cli_both_decoders_selects_turbo_then_zune_with_one_path() {
    let arguments = [
        "photos",
        "--decoder",
        "both",
        "--order",
        "both",
        "--limit",
        "200",
    ];
    let args = pipeline::Args::parse(&words(&arguments)).unwrap().unwrap();
    assert_eq!(args.path.display(), "photos");
    assert_eq!(args.order, Order::Both);
    assert_eq!(args.limit, 200);
    assert_eq!(args.scale, 1);
    assert_eq!(
        args.backends(),
        [Some(Backend::Turbo), Some(Backend::Zune)]
    );
}

#[test]
fn cli_scale_accepts_only_supported_turbo_denominators() {
    for scale in ["1", "2", "4", "8"] {
        let arguments = ["photos", "--scale", scale, "--decoder", "turbo"];
        let args = pipeline::Args::parse(&words(&arguments)).unwrap().unwrap();
        assert_eq!(args.scale, scale.parse::<u32>().unwrap());
    }
    for scale in ["0", "3", "16", "-1", "4294967296", "invalid"] {
        let arguments = ["photos", "--decoder", "turbo", "--scale", scale];
        assert!(pipeline::Args::parse(&words(&arguments)).is_err());
    }
    for decoder in ["none", "zune", "both"] {
        let arguments = ["photos", "--decoder", decoder, "--scale", "2"];
        assert!(pipeline::Args::parse(&words(&arguments)).is_err());
    }
}

#[test]
fn attempts_are_counted_before_they_begin() {
    let args = pipeline::Args::parse(&words(&["p", "--decoder", "both", "--passes", "3"]))
        .unwrap()
        .unwrap();
    assert_eq!(args.plan(100), Ok(300));
    let error = args.plan(100_000).unwrap_err();
    assert_eq!(
        error,
        "1200000 planned attempts exceeds 1000000; lower --limit or --passes"
    );
    assert_eq!(args.plan(usize::MAX).unwrap_err(), "attempt count overflow");
    let mut tries = Tries::new();
    assert_eq!(
        tries.conclude(),
        "JPEG read: all 0 candidates failed; no candidates"
    );
    tries.failed(512, "broken");
    assert_eq!(
        tries.conclude(),
        "JPEG read: all 1 candidates failed; candidate at 512: broken"
    );
    let mut totals = IoTotals { bytes: u64::MAX - 1, calls: 0 };
    totals.count(5, 2);
    assert_eq!(totals, IoTotals { bytes: u64::MAX, calls: 2 });
}

#[test]
fn numbers_are_read_as_unsigned_decimals() {
    assert_eq!(parse_unsigned("0"), Some(0));
    assert_eq!(parse_unsigned("+17"), Some(17));
    assert_eq!(parse_unsigned("18446744073709551615"), Some(u64::MAX));
    for wrong in ["", "+", "-1", "1_0", "18446744073709551616", "1.5"] {
        assert_eq!(parse_unsigned(wrong), None, "{wrong}");
    }
}

fn preview(width: u32, height: u32, length: u64) -> EmbeddedPreview {
    EmbeddedPreview {
        offset: 0,
        length,
        width: Some(width),
        height: Some(height),
    }
}

#[test]
fn selection_uses_pixels_and_adequate_size_not_candidate_position() {
    let previews = vec![
        preview(7008, 4672, 1000),
        preview(160, 120, 5000),
        preview(1616, 1080, 4000),
        preview(800, 600, 3000),
    ];
    let width = |previews: &Vec<EmbeddedPreview>, strategy| {
        select_preview(previews, strategy).unwrap().width
    };
    assert_eq!(width(&previews, Strategy::Tiny), Some(160));
    assert_eq!(width(&previews, Strategy::Medium), Some(1616));
    assert_eq!(width(&previews, Strategy::MediumEighth), Some(1616));
    assert_eq!(width(&previews, Strategy::Large), Some(7008));
    assert_eq!(
        width(&vec![preview(160, 120, 5000)], Strategy::Medium),
        Some(160)
    );
    assert!(select_preview(&vec![], Strategy::Tiny).is_err());
}

#[test]
fn window_is_bounded_nearest_first_and_handles_edges() {
    assert_eq!(visible_window(0, 3), vec![0, 1, 2]);
    assert_eq!(visible_window(2, 3), vec![2, 1, 0]);
    assert_eq!(
        visible_window(5, 11),
        vec![5, 6, 4, 7, 3, 8, 2, 9, 1, 10, 0]
    );
}

#[test]
fn seeded_orders_repeat_and_preserve_every_index() {
    let a = shuffled_order(100, 42);
    assert_eq!(a, shuffled_order(100, 42));
    assert_ne!(a, shuffled_order(100, 43));
    let mut sorted = a;
    sorted.sort_unstable();
    assert_eq!(sorted, (0..100).collect::<Vec<_>>());
}

#[test]
fn spread_selection_includes_both_ends_without_duplicates() {
    assert_eq!(spread_indices(433, 5), vec![0, 108, 216, 324, 432]);
    assert_eq!(spread_indices(3, 10), vec![0, 1, 2]);
    assert_eq!(spread_indices(433, 1), vec![0]);
    assert!(spread_indices(0, 64).is_empty());
    let spread = spread_indices(433, 64);
    assert_eq!(spread.len(), 64);
    assert!(spread.windows(2).all(|pair| pair[0] < pair[1]));
    assert_eq!(spread.first(), Some(&0));
    assert_eq!(spread.last(), Some(&432));
}

#[test]
fn arguments_limit_work_and_accept_multiple_strategies() {
    let args = filmstrip::Args::parse(&words(&[
        "photos",
        "--mode",
        "both",
        "--strategy",
        "tiny,medium-eighth",
        "--rounds",
        "2",
    ]))
    .unwrap()
    .unwrap();
    assert_eq!(args.strategies, [Strategy::Tiny, Strategy::MediumEighth]);
    assert_eq!(args.rounds, 2);
    let error = filmstrip::Args::parse(&words(&[
        "photos", "--mode", "both", "--limit", "10000", "--rounds", "8",
    ]))
    .unwrap_err();
    assert_eq!(
        error,
        "worst-case samples 8640000 exceed 200000; reduce limit/rounds/strategies"
    );
    assert!(filmstrip::Args::parse(&words(&["photos", "--limit", "0"])).is_err());
}

#[test]
fn filmstrip_arguments_name_what_is_wrong() {
    let error = |arguments: &[&str]| filmstrip::Args::parse(&words(arguments)).unwrap_err();
    assert_eq!(error(&[]), "missing input path; use --help");
    assert_eq!(error(&["a", "b"]), "provide exactly one input path");
    assert_eq!(error(&["--what"]), "unknown option \"--what\"");
    assert_eq!(error(&["--mode"]), "missing value for --mode");
    assert_eq!(
        error(&["--mode", "fast"]),
        "invalid value \"fast\" for --mode"
    );
    assert_eq!(
        error(&["--strategy", "tiny,,large"]),
        "unknown strategy \"\""
    );
    assert_eq!(error(&["--seed", "x"]), "--seed must be u64");
    let raw = |bytes: &[u8]| Argument::Raw(PhotoPath::from_bytes(bytes.to_vec()));
    assert_eq!(
        filmstrip::Args::parse(&vec![raw(b"-\xff")]).unwrap_err(),
        "option must be UTF-8"
    );
    let mut valued = words(&["--order"]);
    valued.push(raw(b"\xff"));
    assert_eq!(
        filmstrip::Args::parse(&valued).unwrap_err(),
        "--order value must be UTF-8"
    );
    let args = filmstrip::Args::parse(&vec![raw(b"\xff"), words(&["--spread"]).remove(0)])
        .unwrap()
        .unwrap();
    assert_eq!(args.path.as_raw(), b"\xff");
    assert!(args.spread);
    let twice = words(&["p", "--strategy", "tiny,tiny,large,tiny"]);
    assert_eq!(
        filmstrip::Args::parse(&twice).unwrap().unwrap().strategies,
        [Strategy::Tiny, Strategy::Large, Strategy::Tiny]
    );
}

#[test]
fn thumbnails_of_a_pass_follow_the_window_within_their_memory() {
    let mut cache = ThumbCache::new();
    assert!(cache.keep(3, THUMB_CACHE_BYTES - 10));
    assert!(cache.keep(4, 10));
    assert!(!cache.keep(5, 1));
    assert!(cache.holds(4) && !cache.holds(5));
    assert_eq!(cache.bytes(), THUMB_CACHE_BYTES);
    assert!(cache.is_ready(&vec![3, 4]));
    assert!(!cache.is_ready(&vec![3, 5]));
    cache.follow(&vec![4, 5]);
    assert_eq!(cache.bytes(), 10);
    assert_eq!(conditions(1), [false, true, true, false]);
    assert_eq!(conditions(2), [true, false, false, true]);
    assert_eq!(Strategy::Large.scale(), 8);
    assert_eq!(Strategy::parse("medium"), Ok(Strategy::Medium));
}

#[test]
fn names_in_tables_have_no_tabs() {
    assert_eq!(
        escaped(&PhotoPath::from_bytes(b"a\tb\\c\nd\re\xff".to_vec())),
        "a\\tb\\\\c\\nd\\re\u{fffd}"
    );
}

#[test]
fn contention_rounds_are_balanced_and_bounded() {
    let arguments = |words: &[&str]| words.iter().map(|w| w.to_string()).collect::<Vec<_>>();
    let args = contention::Args::parse(&arguments(&["--rounds", "3", "--warmup", "7"]))
        .unwrap()
        .unwrap();
    assert_eq!((args.pairs, args.warmup), (3, 12));
    assert_eq!((args.width, args.height), (7008, 4672));
    assert!(contention::Args::parse(&arguments(&["-h"])).unwrap().is_none());
    let error = |words: &[&str]| contention::Args::parse(&arguments(words)).unwrap_err();
    assert_eq!(error(&["--rounds"]), "missing value for --rounds");
    assert_eq!(error(&["--rounds", "x"]), "invalid value for --rounds");
    assert_eq!(
        error(&["--rounds", "1001"]),
        "unsupported option or value: --rounds 1001"
    );
    assert_eq!(
        error(&["--width", "16384", "--height", "16384"]),
        "synthetic pixels must fit in 256 MiB"
    );
    for mode in [
        contention::Mode::Legacy,
        contention::Mode::Poll,
        contention::Mode::Mapped,
    ] {
        for place in 0..3 {
            let stands = (0..6).filter(|round| trial_order(*round)[place] == mode);
            assert_eq!(stands.count(), 2);
        }
    }
    assert_eq!(phase_name(2), "completion");
    assert_eq!(phase_name(3), "done");
    assert_eq!(contention::Mode::Mapped.label(), "mapped_staging_poll");
}

#[test]
fn rejects_raw_output_name_before_reading_input() {
    let error = extract::Args::parse(&words(&["missing.ARW", "output.ARW"])).unwrap_err();
    match error {
        Refusal::Error(error) => assert!(error.contains("output must have")),
        other => panic!("{other:?}"),
    }
    let args = extract::Args::parse(&words(&["--list", "in.ARW", "out.JPeG"])).unwrap();
    assert_eq!(args.output.display(), "out.JPeG");
    assert!(args.list);
    assert!(matches!(
        extract::Args::parse(&words(&["one.ARW"])),
        Err(Refusal::Usage)
    ));
    assert!(matches!(
        extract::Args::parse(&words(&["-h"])),
        Err(Refusal::Help)
    ));
}

#[test]
fn refused_access_comes_with_advice() {
    let path = PhotoPath::from_text("/p/a.ARW");
    let failure = |code, denied| {
        Error::Io(IoFailure { code, denied, text: "Operation not permitted".to_string() })
    };
    let plain = input_error("opening input", &path, &failure(Some(5), false));
    assert_eq!(plain, "opening input '/p/a.ARW': Operation not permitted");
    for error in [failure(Some(1), false), failure(Some(13), false), failure(None, true)] {
        assert!(input_error("opening input", &path, &error).contains("Files & Folders"));
    }
    assert_eq!(
        describe(&preview(8, 6, 100), 0),
        "candidate 1: 8x6 offset=0 length=100"
    );
}

#[test]
fn the_first_readable_preview_is_copied() {
    let mut jpeg = vec![0xff, 0xd8, 0xff, 0xc0, 0, 11, 8, 0, 8, 0, 8];
    jpeg.extend_from_slice(&[1, 1, 0x11, 0, 0xff, 0xda, 0, 8, 1, 1, 0, 0, 63, 0, 0x23, 0xff, 0xd9]);
    let mut bytes = vec![0; 64];
    bytes.extend_from_slice(&jpeg);
    let length = bytes.len() as u64;
    let mut reader = PreviewReader::from_reader(MemorySource { bytes }, length);
    let at = |offset, length| EmbeddedPreview { offset, length, width: None, height: None };
    let previews = vec![at(0, 32), at(64, jpeg.len() as u64)];
    let mut out = Vec::new();
    let (chosen, errors) = read_first(&mut reader, &previews, &mut out);
    assert_eq!(chosen, Some(1));
    assert_eq!(errors.len(), 1);
    assert_eq!(out, jpeg);
    assert_eq!(reader.io_stats().read_calls, 2);
    assert_eq!(reader.io_stats().bytes_read, 32 + jpeg.len() as u64);
    let (none, errors) = read_first(&mut reader, &vec![at(0, 32)], &mut out);
    assert_eq!(none, None);
    assert_eq!(errors.len(), 1);
    assert!(out.is_empty());
}

#[test]
fn options_choose_a_folder_and_its_memory() {
    let plain = Options::parse(&words(&[])).unwrap().unwrap();
    assert_eq!(plain.cache_mb, 512);
    assert!(plain.path.is_none());
    let full = Options::parse(&words(&["-psn_0_1", "/p", "--cache-mb", "1024"]))
        .unwrap()
        .unwrap();
    assert_eq!(full.cache_mb, 1024);
    assert_eq!(full.path.unwrap().display(), "/p");
    assert!(Options::parse(&words(&["--help"])).unwrap().is_none());
    let error = |arguments: &[&str]| Options::parse(&words(arguments)).unwrap_err();
    assert_eq!(
        error(&["--cache-mb", "300"]),
        "--cache-mb needs 256, 512, 1024, or 2048"
    );
    assert_eq!(
        error(&["--smoke-test"]),
        "--smoke-test needs a new output directory"
    );
    assert_eq!(
        error(&["--smoke-test", "/out"]),
        "--smoke-test requires a folder or ARW path"
    );
    assert_eq!(error(&["a", "b"]), "provide one folder or ARW path");
    assert_eq!(error(&["--x"]), "unknown option: --x");
}

#[test]
fn memory_is_divided_at_the_start() {
    for cache_mb in [256, 512, 1024, 2048] {
        let setup = configure(&Options { path: None, cache_mb, smoke_test: None }).unwrap();
        assert_eq!(
            setup.main_bytes + setup.thumbnail_bytes,
            cache_mb * 1024 * 1024
        );
        assert!(setup.restore_allowed && setup.remembers);
        assert_eq!(setup.loader().decode_scale, setup.decode_scale);
    }
}

#[test]
fn the_follower_keeps_what_is_near_and_counts_what_it_did() {
    let mut follower = Follower::new();
    assert!(follower.begin(0, 5, 100).is_none());
    let window = follower.begin(1, 5, 100).unwrap();
    assert_eq!(window[0], 5);
    assert_eq!(follower.windows, 1);
    assert!(!follower.skips(5));
    for index in &window {
        assert!(follower.record(*index, 1000, 300, false));
    }
    follower.finish(&window, false);
    assert_eq!(follower.ready_windows, 1);
    assert!(follower.skips(5));
    assert_eq!(follower.cache_hits, 1);
    assert_eq!(follower.peak_cache_bytes, 1000 * window.len());
    assert_eq!(follower.peak_jpeg_capacity, 300);
    assert!(follower.begin(1, 50, 100).is_none());
    // A step aside keeps what is still visible.
    let next = follower.begin(2, 6, 100).unwrap();
    assert!(follower.skips(6));
    assert!(next.iter().any(|index| !window.contains(index)));
    // Late ones are dropped; one that does not fit ends the work.
    let before = follower.cache.bytes();
    assert!(follower.record(90, 1000, 900, true));
    assert_eq!(follower.cache.bytes(), before);
    assert!(!follower.record(91, usize::MAX, 10, false));
    assert_eq!(follower.budget_skips, 1);
    assert_eq!(follower.peak_rgba_bytes, usize::MAX);
    assert_eq!(follower.peak_jpeg_capacity, 900);
    follower.finish(&next, true);
    assert_eq!(follower.ready_windows, 1);
}

#[test]
fn rows_are_padded_for_copies() {
    let mut args = contention::Args::parse(&Vec::new()).unwrap().unwrap();
    args.width = 65;
    args.height = 10;
    assert_eq!(args.padded_row(8192, 1 << 20), Ok(512));
    assert_eq!(args.padded_row(8192, 5120), Ok(512));
    assert_eq!(
        args.padded_row(8192, 5119),
        Err("padded staging exceeds device buffer limit".to_string())
    );
    assert_eq!(
        args.padded_row(64, 1 << 20),
        Err("requested dimensions exceed adapter limit".to_string())
    );
    args.width = 64;
    assert_eq!(args.padded_row(8192, 1 << 20), Ok(256));
}

#[test]
fn places_are_kept_as_they_were_written() {
    let options = Options::parse(&words(&["/p//q/./r/", "--smoke-test", "out//new/"]))
        .unwrap()
        .unwrap();
    assert_eq!(options.path.unwrap().as_raw(), b"/p//q/./r/");
    assert_eq!(options.smoke_test.unwrap().as_raw(), b"out//new/");
}

#[test]
fn too_little_and_too_much_memory_are_refused() {
    let setup = |cache_mb| configure(&Options { path: None, cache_mb, smoke_test: None });
    assert_eq!(
        setup(8).unwrap_err(),
        "Image budget must exceed the 8 MiB thumbnail allowance"
    );
    assert_eq!(setup(9).unwrap().main_bytes, 1024 * 1024);
    assert_eq!(setup(usize::MAX).unwrap_err(), "image budget overflow");
}
