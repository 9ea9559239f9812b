use fastcull::arw::{EmbeddedPreview, MemorySource, PreviewReader};
use fastcull::browser::prefetch::Direction;
use fastcull::image::cache::{DecodedImage, MemoryBudget};
use fastcull::image::decoder::{
    Backend, Decoder, Written, MAX_DIMENSION, MAX_PROGRESSIVE_SCANS,
};
use fastcull::image::loader::{
    validate_reserved_dimensions, Attempts, ImageLoader, LoadError, LoadTimings, LoaderConfig,
    LoaderEvent, Poll, Reservation, Role, State, Task,
};
use fastcull::path::{Identity, PhotoPath};
use std::collections::BTreeMap;
use zune_core::{bytestream::ZCursor, colorspace::ColorSpace, options::DecoderOptions};

#[test]
fn changed_jpeg_dimensions_are_rejected_before_the_reserved_decode() {
    // A complete SOF/SOS header is enough: validation never touches entropy
    // bytes or allocates the advertised 125 MiB output.
    let mut jpeg = vec![0xff, 0xd8, 0xff, 0xc0, 0, 11, 8];
    jpeg.extend_from_slice(&4672_u16.to_be_bytes());
    jpeg.extend_from_slice(&7008_u16.to_be_bytes());
    jpeg.extend_from_slice(&[1, 1, 0x11, 0, 0xff, 0xda, 0, 8, 1, 1, 0, 0, 63, 0]);
    assert!(validate_reserved_dimensions(&jpeg, 7008, 4672).is_ok());
    assert!(validate_reserved_dimensions(&jpeg, 160, 120)
        .unwrap_err()
        .contains("changed during read"));
    // Equal pixel counts with swapped dimensions still invalidate the
    // advertised layout/orientation; reduced IDCT keeps this same check.
    assert!(validate_reserved_dimensions(&jpeg, 4672, 7008).is_err());
    for length in 0..jpeg.len() {
        assert!(validate_reserved_dimensions(&jpeg[..length], 7008, 4672).is_err());
    }
}

fn listing(skip: Option<usize>) -> Vec<PhotoPath> {
    (0..100)
        .filter(|index| Some(*index) != skip)
        .map(|index| PhotoPath::from_text(&format!("{index}.ARW")))
        .collect()
}

fn state() -> (LoaderConfig, State<PhotoPath>, MemoryBudget) {
    let config = LoaderConfig::new();
    let mut state = State::new();
    state.session = 1;
    state.files = listing(None);
    (config, state, MemoryBudget::new(1024))
}

fn image(budget: &mut MemoryBudget, id: u64) -> DecodedImage {
    let lease = budget.try_reserve(4).unwrap();
    DecodedImage::new(id, 4, 1, 1, 1, 1, 1, lease, budget).unwrap()
}

#[test]
fn latest_generation_replaces_queued_foreground_and_cancels_old_target() {
    let (config, mut state, mut budget) = state();
    state.navigate(&config, 10, 1, Direction::Forward, false, &mut budget);
    let old = state.foreground.unwrap();
    state.navigate(&config, 30, 9, Direction::Backward, false, &mut budget);
    assert_eq!(state.foreground.unwrap().index, 30);
    assert_eq!(state.foreground.unwrap().generation, 9);
    assert!(!state.relevant(old));
    assert_eq!(state.prefetch.front().unwrap().index, 29);
    assert!(!state.prefetch.iter().any(|task| task.index == 11));
    state.session = 2;
    assert!(!state.relevant(state.foreground.unwrap()));
}

#[test]
fn file_removal_reuses_shifted_neighbor_and_rejects_old_session_tasks() {
    let (config, mut state, mut budget) = state();
    state.navigate(&config, 10, 8, Direction::Forward, false, &mut budget);
    let old_foreground = state.foreground.unwrap();
    let old_neighbor = *state.prefetch.front().unwrap();
    let neighbor = image(&mut budget, 17);
    state.cache.insert(11, neighbor, true, &mut budget);
    state.gpu_cached.push(12);
    state.set_files(2, listing(Some(10)), &mut budget);
    assert_eq!(state.files[10].display(), "11.ARW");
    assert_eq!(state.generation, 0);
    assert!(state.target.is_none());
    assert!(state.foreground.is_none());
    assert!(state.prefetch.is_empty());
    assert!(state.wanted.is_empty());
    assert!(state.gpu_cached.is_empty());
    assert!(state.prefetch_paused);
    assert!(!state.current_available);
    assert!(!state.current_gpu_cached);
    assert!(!state.relevant(old_foreground));
    assert!(!state.relevant(old_neighbor));
    assert_eq!(budget.used(), 4);
    assert_eq!(state.cache.get(10), Some(17));
    state.cache.let_go(17, &mut budget);
    assert!(!state.cache.contains(11));

    let event = state.navigate(&config, 10, 9, Direction::Forward, false, &mut budget);
    assert!(matches!(
        event,
        Some(LoaderEvent::Ready {
            session: 2,
            index: 10,
            generation: 9,
            timings: LoadTimings {
                cache_hit: true,
                ..
            },
            prefetched: true
        })
    ));
    assert!(
        state.foreground.is_none(),
        "retained neighbor must not be decoded again"
    );
    assert!(
        !state.relevant(old_foreground),
        "matching shifted index must not revive an old task"
    );
    state.set_files(3, Vec::new(), &mut budget);
    assert_eq!(budget.used(), 0);
}

#[test]
fn gpu_hit_schedules_no_duplicate_decode_and_waits_for_upload_headroom() {
    let (config, mut state, mut budget) = state();
    state.navigate(&config, 20, 3, Direction::Forward, true, &mut budget);
    assert!(state.foreground.is_none());
    assert!(state.current_available);
    let neighbor = *state.prefetch.front().unwrap();
    assert!(!state.relevant(neighbor));
    state.prefetch_paused = false;
    assert!(state.relevant(neighbor));
    state.navigate(&config, 21, 4, Direction::Forward, true, &mut budget);
    assert!(!state.relevant(neighbor)); // An existing GPU texture cancels a redundant in-flight decode.
    state.navigate(&config, 21, 4, Direction::Forward, false, &mut budget);
    assert!(state.relevant(neighbor)); // Promote the requested in-flight image.
}

#[test]
fn gpu_cache_sync_cancels_neighbor_decodes_and_never_requeues_old_current() {
    let (config, mut state, mut budget) = state();
    state.navigate(&config, 10, 1, Direction::Forward, true, &mut budget);
    state.prefetch_paused = false;
    let neighbor = Task {
        session: 1,
        generation: 1,
        index: 11,
        role: Role::Speculative,
    };
    assert!(state.relevant(neighbor));
    let next = image(&mut budget, 1);
    state.cache.insert(11, next, true, &mut budget);
    state.set_gpu_cached(&vec![10, 11, 1000], &mut budget);
    assert!(state.current_available);
    assert!(state.current_gpu_cached);
    assert_eq!(budget.used(), 0);
    assert!(!state.cache.contains(11));
    assert!(!state.relevant(neighbor));
    assert!(!state.gpu_cached.contains(&1000));
    assert_eq!(state.prefetch.front().unwrap().index, 12);
    state.set_gpu_cached(&Vec::new(), &mut budget);
    assert!(!state.current_available);
    assert!(!state.current_gpu_cached);
    assert!(state.foreground.is_none());
    assert!(state.prefetch.iter().all(|task| task.index != 10));
    state.navigate(&config, 12, 2, Direction::Forward, false, &mut budget);
    assert_eq!(state.foreground.unwrap().index, 12);
}

#[test]
fn speculation_stops_at_capacity_and_keeps_the_nearest_neighbor() {
    let (mut config, mut state, mut budget) = state();
    config.cpu_cache_bytes = 8;
    state.navigate(&config, 10, 1, Direction::Forward, true, &mut budget);
    for index in [10, 11] {
        let next = image(&mut budget, index as u64);
        state.cache.insert(index, next, index != 10, &mut budget);
    }
    state.prefetch_paused = false;
    let task = Task {
        session: 1,
        generation: 1,
        index: 12,
        role: Role::Speculative,
    };
    assert!(matches!(
        state.reserve(&config, task, 0, 4, false, &mut budget),
        Reservation::Blocked(None)
    ));
    assert!(state.cache.contains(11));
    assert!(!state.cache.contains(12));
    state.shutdown = true;
    assert!(matches!(
        state.reserve(&config, task, 0, 4, false, &mut budget),
        Reservation::Refused(LoadError::Cancelled)
    ));
}

#[test]
fn nearer_prefetch_replaces_behind_and_foreground_can_reclaim_speculation() {
    let (mut config, mut state, mut budget) = state();
    config.cpu_cache_bytes = 8;
    state.navigate(&config, 11, 2, Direction::Forward, true, &mut budget);
    state.prefetch_paused = false;
    for index in [10, 11] {
        let next = image(&mut budget, index as u64);
        state.cache.insert(index, next, false, &mut budget);
    }
    let task = Task {
        session: 1,
        generation: 2,
        index: 12,
        role: Role::Speculative,
    };
    let leases = state.reserve(&config, task, 0, 4, false, &mut budget);
    let Reservation::Granted { jpeg, decoded } = leases else {
        panic!("{leases:?}");
    };
    assert!(!state.cache.contains(10));
    assert!(state.cache.contains(11));
    budget.release(jpeg);
    budget.release(decoded);
    let gpu = budget.try_reserve(1016).unwrap();
    state.navigate(&config, 12, 3, Direction::Forward, false, &mut budget);
    let task = Task {
        session: 1,
        generation: 3,
        index: 12,
        role: Role::Foreground,
    };
    let leases = state.reserve(&config, task, 4, 4, false, &mut budget);
    let Reservation::Granted { jpeg, decoded } = leases else {
        panic!("{leases:?}");
    };
    assert!(!state.cache.contains(11));
    assert_eq!(budget.used(), 1024);
    budget.release(jpeg);
    budget.release(decoded);
    budget.release(gpu);
    assert_eq!(budget.used(), 0);
}

#[test]
fn foreground_pressure_notifies_once_and_resumes_when_gpu_memory_is_released() {
    let (config, mut state, mut budget) = state();
    state.navigate(&config, 10, 1, Direction::Forward, false, &mut budget);
    let gpu = budget.try_reserve(1020).unwrap();
    let task = Task {
        session: 1,
        generation: 1,
        index: 10,
        role: Role::Foreground,
    };
    assert!(matches!(
        state.reserve(&config, task, 4, 4, false, &mut budget),
        Reservation::Blocked(Some(LoaderEvent::MemoryPressure {
            session: 1,
            index: 10,
            generation: 1,
            bytes_needed: 8
        }))
    ));
    assert!(matches!(
        state.reserve(&config, task, 4, 4, true, &mut budget),
        Reservation::Blocked(None)
    ));
    budget.release(gpu);
    let leases = state.reserve(&config, task, 4, 4, true, &mut budget);
    let Reservation::Granted { jpeg, decoded } = leases else {
        panic!("{leases:?}");
    };
    assert_eq!(budget.used(), 8);
    budget.release(jpeg);
    budget.release(decoded);
    assert_eq!(budget.used(), 0);
}

#[test]
fn navigation_cancels_a_memory_blocked_request_without_releasing_its_budget() {
    let (config, _, mut budget) = state();
    let mut loader = ImageLoader::new(config).unwrap();
    loader.set_files(1, listing(None), &mut budget);
    loader.request(10, 1, Direction::Forward, &mut budget);
    let held_gpu = budget.try_reserve(1024).unwrap();
    let task = Task {
        session: 1,
        generation: 1,
        index: 10,
        role: Role::Foreground,
    };
    assert!(matches!(
        loader.state.reserve(&config, task, 4, 4, false, &mut budget),
        Reservation::Blocked(Some(LoaderEvent::MemoryPressure { index: 10, .. }))
    ));
    let epoch = budget.epoch();
    loader.request(30, 2, Direction::Forward, &mut budget);
    assert!(budget.wait_for_change(epoch), "a waiting worker is woken");
    assert!(matches!(
        loader.state.reserve(&config, task, 4, 4, true, &mut budget),
        Reservation::Refused(LoadError::Cancelled)
    ));
    assert_eq!(budget.used(), 1024);
    budget.release(held_gpu);
}

/// A photograph with one preview: a generated gray image of 8x8 pixels.
fn gray_photograph() -> Vec<u8> {
    let mut jpeg = vec![0xff, 0xd8, 0xff, 0xdb, 0, 67, 0];
    jpeg.extend_from_slice(&[1; 64]);
    jpeg.extend_from_slice(&[0xff, 0xc0, 0, 11, 8, 0, 8, 0, 8, 1, 1, 0x11, 0]);
    jpeg.extend_from_slice(&[0xff, 0xc4, 0, 38]);
    for table in [0, 0x10] {
        jpeg.extend_from_slice(&[table, 1]);
        jpeg.extend_from_slice(&[0; 15]);
        jpeg.push(0);
    }
    jpeg.extend_from_slice(&[0xff, 0xda, 0, 8, 1, 1, 0, 0, 63, 0, 0x3f, 0xff, 0xd9]);
    let mut arw = vec![0; 512];
    arw[..8].copy_from_slice(&[b'I', b'I', 42, 0, 8, 0, 0, 0]);
    arw[8..10].copy_from_slice(&2u16.to_le_bytes());
    for (index, tag, value) in [(0, 0x0201_u16, 512_u32), (1, 0x0202_u16, jpeg.len() as u32)] {
        let offset = 10 + index * 12;
        arw[offset..offset + 2].copy_from_slice(&tag.to_le_bytes());
        arw[offset + 2..offset + 4].copy_from_slice(&4u16.to_le_bytes());
        arw[offset + 4..offset + 8].copy_from_slice(&1u32.to_le_bytes());
        arw[offset + 8..offset + 12].copy_from_slice(&value.to_le_bytes());
    }
    arw.extend_from_slice(&jpeg);
    arw
}

/// A worker that decodes, with the pixels of its images by their number.
struct Worker {
    disk: BTreeMap<String, Vec<u8>>,
    pixels: BTreeMap<u64, Vec<u8>>,
    /// A task that waits for memory.
    blocked: Option<(Task, PhotoPath)>,
}

impl Worker {
    /// Does tasks until something is reported, or there is nothing to do.
    fn load(
        &mut self,
        loader: &mut ImageLoader<PhotoPath>,
        budget: &mut MemoryBudget,
        role: Role,
    ) -> Option<LoaderEvent> {
        loop {
            let (task, file) = match self.blocked.take() {
                Some(blocked) => blocked,
                None => match loader.state.next_task(role) {
                    Poll::Run(task, file) => (task, file),
                    _ => return None,
                },
            };
            let result = self.decode(loader, budget, task, &file);
            if self.blocked.is_some() {
                return None;
            }
            let config = loader.config;
            if let Some(event) = loader.state.finish(&config, task, result, budget) {
                return Some(event);
            }
        }
    }

    fn decode(
        &mut self,
        loader: &mut ImageLoader<PhotoPath>,
        budget: &mut MemoryBudget,
        task: Task,
        file: &PhotoPath,
    ) -> Result<(DecodedImage, LoadTimings), LoadError> {
        let config = loader.config;
        let bytes = self.disk[&file.display()].clone();
        let length = bytes.len() as u64;
        let mut reader = PreviewReader::open(MemorySource { bytes }, length, true).unwrap();
        let previews = reader.find_previews().unwrap();
        let attempt = Attempts::new(previews, config.decode_scale.max(1)).next()?;
        let (compressed, decoded) = match loader.state.reserve(
            &config,
            task,
            attempt.jpeg_bytes,
            attempt.decoded_bytes,
            false,
            budget,
        ) {
            Reservation::Granted { jpeg, decoded } => (jpeg, decoded),
            Reservation::Refused(error) => return Err(error),
            Reservation::Blocked(_) => {
                self.blocked = Some((task, file.copied()));
                return Err(LoadError::Cancelled);
            }
        };
        let mut jpeg = Vec::new();
        reader.read_preview_into(&attempt.preview, &mut jpeg).unwrap();
        let mut decoder = Decoder::new(Backend::Zune).unwrap();
        let (info, mut memory) = decoder.begin(&jpeg).unwrap();
        let options = DecoderOptions::new_fast()
            .set_strict_mode(true)
            .set_max_width(MAX_DIMENSION)
            .set_max_height(MAX_DIMENSION)
            .jpeg_set_max_scans(MAX_PROGRESSIVE_SCANS)
            .jpeg_set_out_colorspace(ColorSpace::RGBA);
        zune_jpeg::JpegDecoder::new_with_options(ZCursor::new(&jpeg[..]), options)
            .decode_into(&mut memory[..info.bytes])
            .unwrap();
        let info = decoder.decode(info, memory, Written::Done).unwrap();
        budget.release(compressed);
        let id = self.pixels.len() as u64 + 1;
        self.pixels.insert(id, decoder.pixels().to_vec());
        let (width, height) = (info.width, info.height);
        let image =
            DecodedImage::new(id, info.bytes, width, height, width, height, 1, decoded, budget)
                .unwrap();
        Ok((image, LoadTimings::default()))
    }
}

#[test]
fn asynchronous_pipeline_pauses_for_upload_then_prefetches_the_next_frame() {
    let mut config = LoaderConfig::new();
    config.cpu_cache_bytes = 512;
    let mut budget = MemoryBudget::new(4096);
    let mut loader = ImageLoader::new(config).unwrap();
    let mut worker = Worker {
        disk: (0..3).map(|index| (format!("{index}.ARW"), gray_photograph())).collect(),
        pixels: BTreeMap::new(),
        blocked: None,
    };
    let files: Vec<PhotoPath> =
        worker.disk.keys().map(|name| PhotoPath::from_text(name)).collect();
    loader.set_files(7, files, &mut budget);
    assert!(loader.request(0, 1, Direction::Forward, &mut budget).is_none());
    assert!(matches!(
        worker.load(&mut loader, &mut budget, Role::Foreground),
        Some(LoaderEvent::Ready {
            session: 7,
            index: 0,
            generation: 1,
            ..
        })
    ));
    let image = loader.get(0).unwrap();
    let entry = &loader.state.cache.entries[0].image;
    assert_eq!((entry.width, entry.height, worker.pixels[&image].len()), (8, 8, 256));
    assert!(worker.pixels[&image]
        .chunks_exact(4)
        .all(|pixel| pixel == [128, 128, 128, 255]));
    loader.state.cache.let_go(image, &mut budget);
    // Nothing is decoded ahead until the upload is over.
    for role in [Role::Foreground, Role::Speculative] {
        assert!(worker.load(&mut loader, &mut budget, role).is_none());
    }
    loader.resume_prefetch(&mut budget);
    assert!(matches!(
        worker.load(&mut loader, &mut budget, Role::Speculative),
        Some(LoaderEvent::Ready {
            index: 1,
            prefetched: true,
            ..
        })
    ));
    assert!(worker.load(&mut loader, &mut budget, Role::Speculative).is_none());
    let image = loader.get(1).unwrap();
    loader.state.cache.let_go(image, &mut budget);
    assert!(loader.get(2).is_none());
    assert!(matches!(
        loader.request(1, 2, Direction::Forward, &mut budget),
        Some(LoaderEvent::Ready {
            index: 1,
            generation: 2,
            timings: LoadTimings {
                cache_hit: true,
                ..
            },
            prefetched: true,
            ..
        })
    ));
    loader.resume_prefetch(&mut budget);
    assert!(matches!(
        worker.load(&mut loader, &mut budget, Role::Speculative),
        Some(LoaderEvent::Ready {
            index: 2,
            generation: 2,
            ..
        })
    ));
    assert!(loader.get(0).is_none());
    for index in [1, 2] {
        let image = loader.get(index).unwrap();
        loader.state.cache.let_go(image, &mut budget);
    }
    loader.state.shutdown = true;
    assert!(matches!(
        loader.state.next_task(Role::Foreground),
        Poll::Stop
    ));
    loader.state.cache.clear(&mut budget);
    assert_eq!(budget.used(), 0);
}

#[test]
fn reports_without_a_listener_are_dropped() {
    let (config, mut state, mut budget) = state();
    state.navigate(&config, 10, 1, Direction::Forward, false, &mut budget);
    let Poll::Run(task, file) = state.next_task(Role::Foreground) else {
        panic!("nothing to load");
    };
    assert_eq!(file.display(), "10.ARW");
    assert!(state.checkpoint(task).is_ok());
    state.navigate(&config, 40, 2, Direction::Forward, false, &mut budget);
    assert!(matches!(state.checkpoint(task), Err(LoadError::Cancelled)));
    let late = state.finish(
        &config,
        task,
        Err(LoadError::Failed("late".to_string())),
        &mut budget,
    );
    assert!(late.is_none());
}

#[test]
fn previews_are_tried_until_one_can_be_decoded() {
    let preview = |length: u64, width: Option<u32>| EmbeddedPreview {
        offset: 8,
        length,
        width,
        height: width,
    };
    let mut attempts = Attempts::new(vec![preview(100, None), preview(64, Some(8))], 1);
    let attempt = attempts.next().unwrap();
    assert_eq!(attempt.preview.length, 64);
    assert_eq!((attempt.jpeg_bytes, attempt.decoded_bytes), (64, 256));
    attempts.failed("broken".to_string());
    match attempts.next() {
        Err(LoadError::Failed(error)) => assert!(error.contains("broken")),
        other => panic!("{other:?}"),
    }
}

#[test]
fn a_read_preview_covers_its_memory() {
    let preview = EmbeddedPreview { offset: 0, length: 100, width: Some(8), height: Some(8) };
    let mut budget = MemoryBudget::new(1000);
    let mut attempts = Attempts::new(vec![preview], 1);
    let attempt = attempts.next().unwrap();
    assert_eq!((attempt.jpeg_bytes, attempt.decoded_bytes), (100, 256));
    let mut lease = budget.try_reserve(100).unwrap();
    assert!(matches!(attempts.read(&mut lease, 120, Ok(()), &mut budget), Ok(true)));
    assert_eq!((lease.bytes(), budget.used()), (120, 120));
    assert_eq!(attempts.last_error, "no usable JPEG preview");
    let lost = Err("lost".to_string());
    assert!(matches!(attempts.read(&mut lease, 40, lost, &mut budget), Ok(false)));
    assert_eq!((lease.bytes(), budget.used()), (40, 40));
    assert_eq!(attempts.last_error, "lost");
    match attempts.read(&mut lease, 1001, Err("hidden".to_string()), &mut budget) {
        Err(LoadError::Failed(error)) => {
            assert_eq!(error, "JPEG allocation exceeded reserved memory")
        }
        other => panic!("{other:?}"),
    }
    assert_eq!((lease.bytes(), budget.used()), (40, 40));
    assert_eq!(attempts.last_error, "lost");
    budget.release(lease);
}
