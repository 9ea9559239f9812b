use fastcull::app::filmstrip::{
    budget_limits, cell_label, distance_from_window, missing_thumbnails, trim_thumbnails,
    warm_window, THUMB_CACHE_BYTES, THUMB_CACHE_COUNT,
};
use fastcull::app::path_set::PathSet;
use fastcull::app::textures::{Shelf, Texture};
use fastcull::app::thumbnails::{
    candidates, decoder_slot, output_layout, ThumbnailAttempts, ThumbnailFailure, ThumbnailTimings,
    ThumbnailWorker, MAX_EDGE, MAX_JPEG_BYTES, MAX_OUTPUT_EDGE, MAX_PLAN,
};
use fastcull::app::upload::{
    Job, QueuedThumbnail, State, ThumbFinished, ThumbJob, UploadWorker, Uploaded, Verdict, Work,
};
use fastcull::arw::EmbeddedPreview;
use fastcull::image::cache::MemoryBudget;
use fastcull::path::PhotoPath;

fn path(name: &str) -> PhotoPath {
    PhotoPath::from_text(name)
}

fn texture(id: u64) -> Texture {
    Texture {
        id,
        orientation: 1,
        original_width: 8,
        original_height: 8,
        byte_size: 256,
    }
}

#[test]
fn selection_rejects_large_unknown_and_oversized_sources() {
    let preview = |w, h, length| EmbeddedPreview {
        offset: 0,
        length,
        width: w,
        height: h,
    };
    let selected = candidates(vec![
        preview(Some(7008), Some(4672), 7000),
        preview(Some(160), Some(120), 7000),
        preview(Some(80), Some(60), 4000),
        preview(Some(80), Some(60), 3000),
        preview(Some(8), Some(8), MAX_JPEG_BYTES + 1),
        preview(None, Some(120), 100),
        preview(Some(0), Some(1), 10),
    ]);
    assert_eq!(selected.len(), 3);
    assert_eq!(selected[0].length, 3000);
    assert_eq!(selected[2].width, Some(160));
}

#[test]
fn native_reduction_preserves_tiny_sources_and_bounds_every_eligible_size() {
    assert_eq!(output_layout(160, 120), (160, 120, 1));
    assert_eq!(output_layout(192, 192), (192, 192, 1));
    assert_eq!(output_layout(193, 191), (97, 96, 2));
    assert_eq!(output_layout(384, 256), (192, 128, 2));
    assert_eq!(output_layout(385, 257), (97, 65, 4));
    assert_eq!(output_layout(512, 512), (128, 128, 4));
    for edge in 1..=MAX_EDGE {
        for (width, height) in [(edge, 1), (1, edge), (edge, edge)] {
            let (w, h, scale) = output_layout(width, height);
            assert!((1..=MAX_OUTPUT_EDGE).contains(&w));
            assert!((1..=MAX_OUTPUT_EDGE).contains(&h));
            assert_eq!((w, h), (width.div_ceil(scale), height.div_ceil(scale)));
            assert!(decoder_slot(scale).is_ok());
        }
    }
    assert!(decoder_slot(3).is_err());
    // The maximum visible band fits within its 4 MiB texture cache even
    // for cameras whose smallest embedded JPEG is larger than Sony's.
    assert!(24 * MAX_OUTPUT_EDGE as usize * MAX_OUTPUT_EDGE as usize * 4 < 4 * 1024 * 1024);
}

#[test]
fn plan_is_bounded_latest_only_and_cancel_invalidates_inflight() {
    let mut state = ThumbnailWorker::new();
    state.request(1, 1, (0..100).map(|i| (i, path("test.ARW"))).collect());
    assert_eq!(state.plan.len(), MAX_PLAN);
    let old = state.plan.pop_front().unwrap();
    state.request(
        2,
        2,
        vec![(2, path("new.ARW")), (2, path("duplicate.ARW"))],
    );
    assert!(!state.relevant(&old));
    assert_eq!(state.plan.len(), 1);
    let current = state.plan.pop_front().unwrap();
    state.cancel();
    assert!(!state.relevant(&current));
}

#[test]
fn success_has_one_event_backpressure_and_stale_ack_does_not_release_new_plan() {
    let mut worker = ThumbnailWorker::new();
    worker.request(1, 10, vec![(0, path("a.ARW")), (1, path("a.ARW"))]);
    let task = worker.next_task().unwrap();
    let timings = ThumbnailTimings::default();
    let first = worker
        .publish(task, 8, timings, Ok(None), Some(Ok(77)))
        .unwrap();
    assert_eq!(first.orientation, 8);
    assert!(matches!(first.result, Ok(77)));
    assert!(worker.next_task().is_none());
    assert_eq!(worker.activity(), (1, 1));
    worker.pause();
    worker.request(2, 20, vec![(2, path("a.ARW"))]);
    worker.acknowledge(999, 0);
    assert!(worker.next_task().is_none());
    assert_eq!(worker.activity(), (1, 1));
    worker.acknowledge(10, 0);
    let second = worker.next_task().unwrap();
    assert_eq!((second.session, second.serial, second.index), (2, 20, 2));
}

#[test]
fn budget_deferral_does_not_evict_main_memory_or_spin() {
    let mut worker = ThumbnailWorker::new();
    let mut budget = MemoryBudget::new(1024);
    let main = budget.try_reserve(1024).unwrap();
    let preview = EmbeddedPreview {
        offset: 0,
        length: 100,
        width: Some(8),
        height: Some(8),
    };
    worker.request(1, 1, vec![(0, path("a.ARW")), (1, path("a.ARW"))]);
    let task = worker.next_task().unwrap();
    let mut attempts = ThumbnailAttempts::new(vec![preview]);
    let failure = attempts.next(&mut budget).unwrap_err();
    assert!(matches!(failure, ThumbnailFailure::Deferred));
    let timings = ThumbnailTimings::default();
    let event = worker
        .publish(task, 1, timings, Ok(None), Some(Err(failure)))
        .unwrap();
    assert!(matches!(event.result, Err(ThumbnailFailure::Deferred)));
    assert_eq!(budget.used(), 1024);
    worker.acknowledge(1, 0);
    budget.release(main);
    assert!(worker.next_task().is_none());
    assert_eq!(worker.activity(), (1, 1));
    worker.request(1, 2, vec![(0, path("a.ARW"))]);
    assert!(worker.next_task().is_some());
    let mut attempts = ThumbnailAttempts::new(vec![preview]);
    let attempt = attempts.next(&mut budget).unwrap();
    assert_eq!((attempt.width, attempt.height, attempt.scale), (8, 8, 1));
    budget.release(attempt.jpeg);
    budget.release(attempt.decoded);
    assert_eq!(budget.used(), 0);
}

#[test]
fn malformed_small_preview_falls_back_only_to_another_small_preview() {
    let mut budget = MemoryBudget::new(1024 * 1024);
    let preview = |edge, length| EmbeddedPreview {
        offset: 0,
        length,
        width: Some(edge),
        height: Some(edge),
    };
    let mut attempts = ThumbnailAttempts::new(vec![preview(7008, 9), preview(8, 9), preview(1, 9)]);
    let first = attempts.next(&mut budget).unwrap();
    assert_eq!(first.width, 1);
    budget.release(first.jpeg);
    budget.release(first.decoded);
    attempts.failed("malformed".to_string());
    let second = attempts.next(&mut budget).unwrap();
    assert_eq!(second.width, 8);
    budget.release(second.jpeg);
    budget.release(second.decoded);
    attempts.failed("malformed".to_string());
    match attempts.next(&mut budget) {
        Err(ThumbnailFailure::Unavailable(error)) => assert!(error.contains("malformed")),
        other => panic!("{other:?}"),
    }
    assert_eq!(budget.used(), 0);
}

#[test]
fn failure_releases_allocations_and_obeys_acknowledgement() {
    let mut worker = ThumbnailWorker::new();
    worker.request(1, 1, vec![(0, path("missing.ARW")), (1, path("a.ARW"))]);
    let task = worker.next_task().unwrap();
    let timings = ThumbnailTimings::default();
    let missing = ThumbnailFailure::Unavailable("missing".to_string());
    let event = worker
        .publish(task, 1, timings, Ok(None), Some(Err(missing)))
        .unwrap();
    assert!(matches!(event.result, Err(ThumbnailFailure::Unavailable(_))));
    assert!(worker.next_task().is_none());
    assert_eq!(worker.activity(), (1, 1));
    worker.acknowledge(1, 0);
    assert_eq!(worker.next_task().unwrap().index, 1);
}

#[test]
fn protected_thumbnail_pool_is_part_of_the_configured_total() {
    for mib in [256, 512, 1024, 2048] {
        let total = mib * 1024 * 1024;
        let (main, thumbs) = budget_limits(total).unwrap();
        assert_eq!(main + thumbs, total);
        assert_eq!(thumbs, 8 * 1024 * 1024);
        let mut main = MemoryBudget::new(main);
        let mut thumbs = MemoryBudget::new(thumbs);
        let limit = main.limit();
        let _full_photo_pool = main.try_reserve(limit).unwrap();
        // Even under maximum main-photo pressure, a complete strip and
        // its next small upload have protected space inside the total.
        let _strip = thumbs.try_reserve(THUMB_CACHE_BYTES).unwrap();
        assert!(thumbs.try_reserve(1024 * 1024).is_some());
        assert!(main.try_reserve(1).is_none());
        assert!(main.used() + thumbs.used() <= total);
    }
    assert!(budget_limits(8 * 1024 * 1024).is_err());
    assert!(budget_limits(0).is_err());
}

#[test]
fn sliding_prefetch_halo_is_bounded_and_keeps_visible_cells() {
    assert_eq!(warm_window(0..0, 0), 0..0);
    assert_eq!(warm_window(0..12, 10_000), 0..24);
    assert_eq!(warm_window(500..524, 10_000), 488..536);
    assert_eq!(warm_window(9990..10_000, 10_000), 9978..10_000);
    let range = warm_window(usize::MAX - 24..usize::MAX, usize::MAX);
    assert_eq!(range.len(), 36);
    assert_eq!(range.end, usize::MAX);
    assert_eq!(distance_from_window(499, &(500..524)), 1);
    assert_eq!(distance_from_window(524, &(500..524)), 1);
    assert_eq!(distance_from_window(535, &(500..524)), 12);
    assert_eq!(distance_from_window(510, &(500..524)), 0);
}

#[test]
fn thumbnails_far_from_the_strip_are_dropped_first() {
    let files: Vec<PhotoPath> = (0..200).map(|n| path(&format!("{n}.ARW"))).collect();
    let mut shelf = Shelf::new();
    for n in 0..100 {
        shelf.push(path(&format!("{n}.ARW")), texture(n));
    }
    trim_thumbnails(&mut shelf, &files, &(80..92));
    assert!(shelf.len() <= THUMB_CACHE_COUNT);
    for n in 80..92 {
        assert_eq!(shelf.find(&path(&format!("{n}.ARW"))), Some(texture(n)));
    }
    assert!(shelf.find(&path("0.ARW")).is_none());
}

#[test]
fn missing_thumbnails_are_planned_from_the_visible_cells_outwards() {
    let files: Vec<PhotoPath> = (0..100).map(|n| path(&format!("{n}.ARW"))).collect();
    let mut shelf = Shelf::new();
    shelf.push(path("50.ARW"), texture(50));
    let mut unavailable = PathSet::new();
    unavailable.insert(path("51.ARW"));
    let plan = missing_thumbnails(&files, &shelf, &unavailable, &(50..60), 55);
    assert_eq!(plan[0].0, 55);
    assert!(plan.iter().all(|(index, _)| *index != 50 && *index != 51));
    assert!(plan[..8].iter().all(|(index, _)| (50..60).contains(index)));
    assert!(plan.len() <= MAX_PLAN);
}

#[test]
fn labels_are_short() {
    assert_eq!(cell_label(&path("/p/DSC00001.ARW")), "DSC00001");
    let long = cell_label(&path(&format!("/p/{}.ARW", "x".repeat(80))));
    assert!(long.chars().count() <= 24);
}

fn job(session: u64, generation: u64, name: &str) -> Job<PhotoPath> {
    Job {
        session,
        generation,
        path: path(name),
        image: 100 + generation,
        orientation: 1,
    }
}

fn begin(state: &mut State<PhotoPath>) -> Job<PhotoPath> {
    match state.take_work().unwrap() {
        Work::Photo(job) => job,
        Work::Thumbnail(_) => panic!("expected photo upload"),
    }
}

fn thumb(session: u64, serial: u64, index: usize) -> ThumbJob<PhotoPath> {
    ThumbJob {
        session,
        serial,
        index,
        path: path("thumbnail.ARW"),
        image: 200 + index as u64,
        orientation: 1,
    }
}

fn begin_thumb(state: &mut State<PhotoPath>) -> QueuedThumbnail<PhotoPath> {
    match state.take_work().unwrap() {
        Work::Thumbnail(job) => job,
        Work::Photo(_) => panic!("expected thumbnail upload"),
    }
}

#[test]
fn retarget_promotes_running_prefetch_without_duplicate_upload() {
    let mut state = State::new();
    state.retarget(1, &path("A.ARW"), 1);
    state.request(job(1, 1, "B.ARW"));
    let running = begin(&mut state);
    assert!(state.retarget(1, &path("B.ARW"), 2).0);
    assert!(state.relevant(&running));
    state.request(job(1, 2, "B.ARW"));
    assert!(state.pending.is_none());
    assert_eq!(state.finish(&running, true), Some(2));
}

#[test]
fn completed_event_remains_promotable_until_acknowledged() {
    let mut state = State::new();
    state.retarget(1, &path("A.ARW"), 1);
    state.request(job(1, 1, "B.ARW"));
    let running = begin(&mut state);
    assert_eq!(state.finish(&running, true), Some(1));
    assert!(state.retarget(1, &path("B.ARW"), 2).0);
    state.request(job(1, 2, "B.ARW"));
    assert!(state.pending.is_none());
    state.acknowledge(1, &path("B.ARW"), 0);
    assert!(!state.completed.is_empty());
    state.acknowledge(1, &path("B.ARW"), 1);
    assert!(state.completed.is_empty());
}

#[test]
fn pending_promotion_updates_generation_and_releases_replaced_image() {
    let mut state = State::new();
    state.retarget(1, &path("A.ARW"), 1);
    state.request(job(1, 1, "B.ARW"));
    assert!(state.retarget(1, &path("B.ARW"), 2).0);
    assert_eq!(state.pending.as_ref().unwrap().generation, 2);
    let (promoted, released) = state.retarget(1, &path("C.ARW"), 3);
    assert!(!promoted);
    assert!(state.pending.is_none());
    assert_eq!(released.unwrap().image, 101);
}

#[test]
fn cancellation_never_becomes_a_current_photo_failure() {
    let mut state = State::new();
    state.retarget(1, &path("A.ARW"), 1);
    state.request(job(1, 1, "B.ARW"));
    let running = begin(&mut state);
    state.retarget(1, &path("C.ARW"), 2);
    assert!(!state.relevant(&running));
    assert_eq!(state.finish(&running, false), None);
    assert!(!state.retarget(1, &path("B.ARW"), 3).0);
    state.request(job(1, 3, "B.ARW"));
    assert!(state.pending.is_some());
}

#[test]
fn session_changes_and_explicit_cancel_release_all_pending_ownership() {
    let mut state = State::new();
    state.retarget(1, &path("A.ARW"), 1);
    state.request(job(1, 1, "A.ARW"));
    let running = begin(&mut state);
    state.retarget(2, &path("A.ARW"), 2);
    assert!(!state.relevant(&running));
    assert_eq!(state.finish(&running, true), None);
    state.request(job(2, 2, "A.ARW"));
    let released = state.cancel();
    assert_eq!(released.unwrap().image, 102);
    assert!(state.target.is_none());
    assert!(state.completed.is_empty());
}

#[test]
fn foreground_and_photo_prefetch_both_outrank_a_queued_thumbnail() {
    for name in ["A.ARW", "B.ARW"] {
        let mut state = State::new();
        state.retarget(1, &path("A.ARW"), 7);
        assert!(state.request_thumbnail(thumb(1, 2, 0)).is_none());
        state.request(job(1, 7, name));
        let photo = begin(&mut state);
        assert_eq!(photo.path.display(), name);
        assert!(state.thumbnail.is_some());
        assert_eq!(state.finish(&photo, false), Some(7));
        let thumbnail = begin_thumb(&mut state);
        assert!(state.thumbnail_relevant(&thumbnail));
        assert_eq!(thumbnail.job.index, 0);
    }
}

#[test]
fn thumbnail_replacement_and_cancellation_release_cpu_ownership_and_acknowledge_ids() {
    let mut state = State::new();
    state.retarget(1, &path("A.ARW"), 1);
    assert!(state.request_thumbnail(thumb(1, 4, 2)).is_none());
    let (replaced, reason) = state.request_thumbnail(thumb(1, 4, 3)).unwrap();
    let completion = ThumbFinished::skipped(replaced, reason);
    assert!(completion.deferred && completion.result.is_err());
    assert_eq!(
        (completion.session, completion.serial, completion.index),
        (1, 4, 2)
    );
    assert_eq!(completion.image, 202);
    assert_eq!(state.thumbnail.as_ref().unwrap().job.index, 3);
    let canceled = state.cancel_thumbnails().unwrap();
    let completion = ThumbFinished::skipped(canceled, "canceled");
    assert_eq!(completion.index, 3);
    assert_eq!(completion.image, 203);
    assert!(state.thumbnail.is_none());
}

#[test]
fn in_flight_thumbnail_is_invalidated_by_cancellation_and_newer_plan() {
    let mut state = State::new();
    state.retarget(1, &path("A.ARW"), 1);
    assert!(state.request_thumbnail(thumb(1, 4, 2)).is_none());
    let running = begin_thumb(&mut state);
    assert!(state.thumbnail_relevant(&running));
    assert!(state.cancel_thumbnails().is_none());
    assert!(!state.thumbnail_relevant(&running));
    assert!(state.request_thumbnail(thumb(1, 5, 3)).is_none());
    let running = begin_thumb(&mut state);
    assert!(state.thumbnail_relevant(&running));
    assert!(state.request_thumbnail(thumb(1, 6, 4)).is_none());
    assert!(!state.thumbnail_relevant(&running));
    assert_eq!(state.thumbnail.as_ref().unwrap().job.serial, 6);
}

#[test]
fn stale_serial_or_wrong_session_never_replaces_current_thumbnail_work() {
    let mut state = State::new();
    state.retarget(3, &path("A.ARW"), 2);
    assert!(state.request_thumbnail(thumb(3, 10, 5)).is_none());
    for stale in [thumb(3, 9, 4), thumb(2, 100, 4)] {
        let (rejected, reason) = state.request_thumbnail(stale).unwrap();
        let completion = ThumbFinished::skipped(rejected, reason);
        assert!(completion.deferred);
        assert_eq!(completion.image, 204);
        let current = state.thumbnail.as_ref().unwrap();
        assert_eq!(
            (current.job.session, current.job.serial, current.job.index),
            (3, 10, 5)
        );
    }
    let running = begin_thumb(&mut state);
    state.retarget(4, &path("A.ARW"), 3);
    assert!(!state.thumbnail_relevant(&running));
}

#[test]
fn stopping_never_dequeues_thumbnail_work() {
    let mut state = State::new();
    state.retarget(1, &path("A.ARW"), 1);
    assert!(state.request_thumbnail(thumb(1, 1, 0)).is_none());
    state.stop = true;
    assert!(state.take_work().is_none());
    let canceled = state.cancel_thumbnails().unwrap();
    let completion = ThumbFinished::skipped(canceled, "worker stopped");
    assert!(completion.deferred && completion.result.is_err());
    assert_eq!(completion.image, 200);
}

#[test]
fn uploads_wait_for_memory_a_while() {
    let mut worker = UploadWorker::new();
    worker.retarget(1, &path("A.ARW"), 1);
    worker.request(job(1, 1, "A.ARW"));
    let running = begin(&mut worker.state);
    assert!(worker.proceed(&running));
    assert!(matches!(
        worker.judge(0, Uploaded::Short("full".to_string())),
        Verdict::Retry
    ));
    assert!(matches!(
        worker.judge(3000, Uploaded::Short("full".to_string())),
        Verdict::Done(Err(_))
    ));
    assert!(matches!(
        worker.judge(0, Uploaded::Texture(texture(5))),
        Verdict::Done(Ok(_))
    ));
    let finished = worker.finish(running, Ok(texture(5))).unwrap();
    assert_eq!((finished.session, finished.generation), (1, 1));
    assert_eq!(finished.result, Ok(texture(5)));
}

#[test]
fn a_read_thumbnail_covers_its_memory_or_is_put_off() {
    let preview = EmbeddedPreview { offset: 0, length: 100, width: Some(8), height: Some(8) };
    let mut budget = MemoryBudget::new(400);
    let mut attempts = ThumbnailAttempts::new(vec![preview]);
    let mut attempt = attempts.next(&mut budget).unwrap();
    assert_eq!(budget.used(), 356);
    assert!(matches!(attempts.read(&mut attempt.jpeg, 144, Ok(()), &mut budget), Ok(true)));
    assert_eq!(budget.used(), 400);
    assert!(matches!(
        attempts.read(&mut attempt.jpeg, 145, Err("lost".to_string()), &mut budget),
        Err(ThumbnailFailure::Deferred)
    ));
    assert_ne!(attempts.last_error, "lost");
    let lost = Err("lost".to_string());
    assert!(matches!(attempts.read(&mut attempt.jpeg, 0, lost, &mut budget), Ok(false)));
    assert_eq!(budget.used(), 256);
    assert_eq!(attempts.last_error, "lost");
}
