use fastcull::app::scan::selected_index;
use fastcull::browser::directory::{
    compare_paths, is_arw, natural_filename_cmp, scan_arw_paths, sort, Kind, Order,
};
use fastcull::browser::filmstrip::FilmstripWindow;
use fastcull::browser::filter::{choose_selection, select_visible, PhotoFilter};
use fastcull::browser::navigator::Navigator;
use fastcull::browser::prefetch::{plan, Direction};
use fastcull::path::{Identity, PhotoPath};
use std::cmp::Ordering;

fn window(len: usize, capacity: usize) -> FilmstripWindow {
    let mut window = FilmstripWindow::default();
    window.synchronize(len, capacity);
    window
}

fn paths(names: &[&str]) -> Vec<PhotoPath> {
    names.iter().map(|name| PhotoPath::from_text(name)).collect()
}

fn names(files: &Vec<PhotoPath>) -> Vec<String> {
    files.iter().map(|file| file.display()).collect()
}

#[test]
fn ten_thousand_photos_scroll_without_a_selection_or_centering() {
    let mut strip = window(10_000, 12);
    assert_eq!(strip.range(), 0..12);
    assert!(strip.scroll(5));
    assert_eq!(strip.range(), 5..17);
    assert!(!strip.synchronize(10_000, 12));
    assert_eq!(strip.range(), 5..17);
    assert!(strip.scroll(10_000));
    assert_eq!(strip.range(), 9_988..10_000);
    assert!(!strip.scroll(1));
    assert!(strip.scroll(-1));
    assert_eq!(strip.range(), 9_987..9_999);
}

#[test]
fn reveal_moves_only_when_a_photo_crosses_a_visible_edge() {
    let mut strip = window(100, 8);
    strip.scroll(20);
    for index in 20..28 {
        assert!(!strip.reveal_photo(index));
        assert_eq!(strip.range(), 20..28);
    }
    assert!(strip.reveal_photo(28));
    assert_eq!(strip.range(), 21..29);
    assert!(strip.reveal_photo(19));
    assert_eq!(strip.range(), 19..27);
    assert!(strip.reveal_photo(87));
    assert_eq!(strip.range(), 80..88);
    assert!(strip.reveal_photo(0));
    assert_eq!(strip.range(), 0..8);
    assert!(!strip.reveal_photo(100));
    assert!(!strip.reveal_photo(usize::MAX));
}

#[test]
fn resize_preserves_start_except_when_clamped_by_the_end() {
    let mut strip = window(100, 10);
    strip.scroll(40);
    assert!(strip.synchronize(100, 15));
    assert_eq!(strip.range(), 40..55);
    assert!(strip.synchronize(100, 4));
    assert_eq!(strip.range(), 40..44);
    strip.scroll(100);
    assert_eq!(strip.range(), 96..100);
    assert!(strip.synchronize(100, 12));
    assert_eq!(strip.range(), 88..100);
    assert!(strip.synchronize(50, 12));
    assert_eq!(strip.range(), 38..50);
    // A larger folder need not visibly move an unchanged range.
    assert!(!strip.synchronize(200, 12));
    assert_eq!(strip.range(), 38..50);
}

#[test]
fn small_empty_and_zero_capacity_windows_are_safe() {
    let mut strip = window(3, 12);
    assert_eq!(strip.range(), 0..3);
    for delta in [isize::MIN, -1, 0, 1, isize::MAX] {
        assert!(!strip.scroll(delta));
    }
    assert!(!strip.reveal_photo(2));
    assert!(strip.synchronize(0, 12));
    assert_eq!(strip.range(), 0..0);
    assert!(!strip.reveal_photo(0));
    assert!(!strip.scroll(isize::MAX));
    assert!(!strip.synchronize(100, 0));
    assert_eq!(strip.range(), 0..0);
    assert!(!strip.reveal_photo(99));
    assert!(!strip.scroll(isize::MIN));
    assert!(strip.synchronize(100, 1));
    assert!(strip.reveal_photo(99));
    assert_eq!(strip.range(), 99..100);
}

#[test]
fn extreme_offsets_and_lengths_never_overflow() {
    let mut strip = window(usize::MAX, 24);
    assert!(strip.reveal_photo(usize::MAX - 1));
    assert_eq!(strip.range(), usize::MAX - 24..usize::MAX);
    assert!(!strip.scroll(isize::MAX));
    assert!(strip.scroll(isize::MIN));
    assert!(strip.scroll(isize::MIN));
    assert_eq!(strip.range(), 0..24);
    assert!(strip.synchronize(usize::MAX, usize::MAX));
    assert_eq!(strip.range(), 0..usize::MAX);
    assert!(!strip.scroll(isize::MAX));
    assert!(!strip.reveal_photo(usize::MAX - 1));
}

#[test]
fn reset_retains_geometry_and_reports_only_visible_changes() {
    let mut strip = window(100, 8);
    assert!(!strip.reset());
    strip.scroll(10);
    assert!(strip.reset());
    assert_eq!(strip.range(), 0..8);
    assert!(!strip.reset());
    assert!(strip.reveal_photo(99));
    assert_eq!(strip.range(), 92..100);
}

#[test]
fn bounded_windows_always_stay_inside_the_folder() {
    for len in 0..32 {
        for capacity in 0..=24 {
            let mut strip = window(len, capacity);
            for delta in [isize::MIN, -5, 0, 3, isize::MAX] {
                strip.scroll(delta);
                let range = strip.range();
                assert!(range.start <= range.end && range.end <= len);
                assert_eq!(range.len(), capacity.min(len));
                for index in 0..=len {
                    strip.reveal_photo(index);
                    let range = strip.range();
                    assert!(range.start <= range.end && range.end <= len);
                    if index < len && capacity > 0 {
                        assert!(range.contains(&index));
                    }
                }
            }
        }
    }
}

#[test]
fn synchronizing_twice_changes_nothing_more() {
    let mut strip = window(100, 8);
    strip.scroll(95);
    assert!(strip.synchronize(20, 6));
    assert!(!strip.synchronize(20, 6));
    assert_eq!(strip.range(), 14..20);
}

#[test]
fn inclusion_matrix_distinguishes_unknown_zero_and_rejected() {
    let ratings = [
        None,
        Some(-2),
        Some(-1),
        Some(0),
        Some(1),
        Some(2),
        Some(3),
        Some(4),
        Some(5),
        Some(6),
    ];
    for (filter, included) in [
        (PhotoFilter::All, vec![true; ratings.len()]),
        (
            PhotoFilter::Rated,
            vec![
                false, false, false, false, true, true, true, true, true, false,
            ],
        ),
        (
            PhotoFilter::Unrated,
            vec![
                false, false, false, true, false, false, false, false, false, false,
            ],
        ),
        (
            PhotoFilter::Rejected,
            vec![
                false, false, true, false, false, false, false, false, false, false,
            ],
        ),
        (
            PhotoFilter::NotRejected,
            vec![
                false, false, false, true, true, true, true, true, true, false,
            ],
        ),
    ] {
        for (rating, expected) in ratings.into_iter().zip(included) {
            assert_eq!(filter.matches(rating), expected, "{filter:?}, {rating:?}");
        }
    }
    assert_eq!(PhotoFilter::default(), PhotoFilter::All);
}

#[test]
fn stars_are_exact_and_invalid_star_filters_match_nothing() {
    for stars in 1..=5 {
        let filter = PhotoFilter::Stars(stars);
        assert!(!filter.matches(None));
        for rating in -2..=6 {
            assert_eq!(filter.matches(Some(rating)), rating == stars as i8);
        }
    }
    for stars in [0, 6, 128, 255] {
        for rating in [None, Some(-1), Some(0), Some(5)] {
            assert!(!PhotoFilter::Stars(stars).matches(rating));
        }
    }
    assert_eq!(PhotoFilter::Stars(5).label(), "5 stars only");
    assert_eq!(PhotoFilter::Stars(1).label(), "1 star only");
}

#[test]
fn filtering_preserves_order_and_excludes_missing_or_failed_reads() {
    let all = paths(&["DSC1.ARW", "DSC2.ARW", "DSC10.ARW", "DSC20.ARW"]);
    let visible = select_visible(&all, PhotoFilter::Rated, |path: &PhotoPath| {
        match path.display().as_str() {
            "DSC1.ARW" => Some(5),
            "DSC10.ARW" => Some(1),
            _ => None, // Unread or failed sidecar.
        }
    });
    assert_eq!(names(&visible), ["DSC1.ARW", "DSC10.ARW"]);
    let unfiltered = select_visible(&all, PhotoFilter::All, |_: &PhotoPath| {
        panic!("All must not require rating lookup")
    });
    assert_eq!(names(&unfiltered), names(&all));
}

#[test]
fn selection_preserves_path_then_uses_the_vacated_position() {
    let visible = paths(&["a.ARW", "c.ARW", "d.ARW"]);
    let path = PhotoPath::from_text;
    assert_eq!(
        choose_selection(&visible, Some(&path("c.ARW")), Some(2)),
        Some(1)
    );
    assert_eq!(
        choose_selection(&visible, Some(&path("b.ARW")), Some(1)),
        Some(1)
    );
    assert_eq!(
        choose_selection(&visible, Some(&path("e.ARW")), Some(3)),
        Some(2)
    );
    assert_eq!(choose_selection(&visible, None, None), Some(0));
    assert_eq!(choose_selection(&visible, None, Some(usize::MAX)), Some(2));
    assert_eq!(
        choose_selection(&Vec::new(), Some(&path("a.ARW")), Some(0)),
        None
    );
}

#[test]
fn navigation_clamps_and_empty_folders_are_safe() {
    let mut navigator = Navigator::new(3);
    assert!(!navigator.advance(-1));
    assert!(navigator.advance(100));
    assert_eq!(navigator.index(), Some(2));
    assert!(!navigator.advance(1));
    assert!(navigator.advance(isize::MIN));
    assert_eq!(navigator.index(), Some(0));
    assert_eq!(navigator.direction(), Direction::Backward);
    navigator.set_len(0);
    assert!(!navigator.advance(1));
    assert_eq!(navigator.index(), None);
    navigator.set_len(5);
    assert_eq!(navigator.index(), Some(0));
    assert!(!navigator.seek(5));
}

#[test]
fn stepping_back_returns_to_the_same_photograph() {
    let mut navigator = Navigator::new(10);
    assert!(navigator.seek(4));
    assert!(navigator.advance(3));
    assert_eq!(navigator.index(), Some(7));
    assert!(navigator.advance(-3));
    assert_eq!(navigator.index(), Some(4));
}

#[test]
fn directional_windows_reverse_and_clip() {
    assert_eq!(plan(4, 12, Direction::Forward, 3, 2), [5, 6, 7, 3, 2]);
    assert_eq!(plan(4, 12, Direction::Backward, 3, 2), [3, 2, 1, 5, 6]);
    assert_eq!(plan(0, 3, Direction::Backward, 8, 3), [1, 2]);
    assert!(plan(0, 0, Direction::Forward, 8, 3).is_empty());
    assert_eq!(
        plan(usize::MAX - 1, usize::MAX, Direction::Forward, 8, 1),
        [usize::MAX - 2]
    );
}

#[test]
fn sorts_numbers_naturally_and_deterministically() {
    let mut names = [
        "DSC10.ARW",
        "DSC2.ARW",
        "DSC0001.ARW",
        "DSC1.ARW",
        "DSC01.ARW",
    ];
    names.sort_by(|a, b| natural_filename_cmp(a.as_bytes(), b.as_bytes()));
    assert_eq!(
        names,
        [
            "DSC1.ARW",
            "DSC01.ARW",
            "DSC0001.ARW",
            "DSC2.ARW",
            "DSC10.ARW"
        ]
    );
}

#[test]
fn listings_are_sorted_by_name() {
    let sorted = sort(paths(&["x/DSC10.ARW", "x/DSC2.ARW", "x/DSC2.ARW", "x/DSC1.ARW"]));
    assert_eq!(names(&sorted)[0], "x/DSC1.ARW");
    assert_eq!(names(&sorted).last().unwrap(), "x/DSC10.ARW");
}

#[test]
fn arbitrary_length_digit_runs_do_not_overflow() {
    let smaller = format!("DSC{}.ARW", "9".repeat(200));
    let larger = format!("DSC1{}.ARW", "0".repeat(200));
    assert_eq!(
        natural_filename_cmp(smaller.as_bytes(), larger.as_bytes()),
        Ordering::Less
    );
}

#[test]
fn non_utf8_filenames_and_mixed_case_extensions_are_supported() {
    let a = PhotoPath::from_bytes(b"\xffDSC2.ArW".to_vec());
    let b = PhotoPath::from_bytes(b"\xffDSC10.arw".to_vec());
    assert!(is_arw(&a));
    assert_eq!(natural_filename_cmp(a.as_raw(), b.as_raw()), Ordering::Less);
    assert!(!is_arw(&PhotoPath::from_text("DSC1.ARW.jpg")));
}

#[test]
fn comparisons_are_antisymmetric_and_transitive() {
    let names = [
        "", "a", "A", "a0", "a00", "a1", "A1", "a01", "a1a", "a01b", "a2", "a10",
    ];
    for a in names {
        for b in names {
            let ab = natural_filename_cmp(a.as_bytes(), b.as_bytes());
            assert_eq!(
                ab,
                natural_filename_cmp(b.as_bytes(), a.as_bytes()).reverse()
            );
            for c in names {
                if ab != Ordering::Greater
                    && natural_filename_cmp(b.as_bytes(), c.as_bytes()) != Ordering::Greater
                {
                    assert_ne!(
                        natural_filename_cmp(a.as_bytes(), c.as_bytes()),
                        Ordering::Greater
                    );
                }
            }
        }
    }
}

#[test]
fn paths_are_equal_by_their_components() {
    let path = PhotoPath::from_text;
    for (a, b, same) in [
        ("d/A", "d//A", true),
        ("d/A", "d/./A", true),
        ("d/A", "d/A/", true),
        ("d/A/.", "d/A", true),
        ("//d", "/d", true),
        ("/", "/./", true),
        ("./d", "d", false),
        ("d/../d", "d", false),
        ("/d", "d", false),
        ("", "/", false),
        ("", ".", false),
        ("d/A", "d/B", false),
    ] {
        assert_eq!(path(a).same(&path(b)), same, "{a} {b}");
        assert_eq!(path(a).same_path(&path(b)), same, "{a} {b}");
        assert_eq!(path(a).as_bytes() == path(b).as_bytes(), same, "{a} {b}");
    }
    let files = vec![path("d/B"), path("d/A")];
    assert_eq!(selected_index(&files, Some(&path("d//A")), None, false), 1);
    let odd = path("/p//q/./r.ARW/");
    assert_eq!(odd.as_bytes(), b"/p/q/r.ARW");
    assert_eq!(odd.as_raw(), b"/p//q/./r.ARW/");
    assert_eq!(odd.display(), "/p//q/./r.ARW/");
    assert_eq!(odd.parent().unwrap().as_bytes(), b"/p/q");
    assert_eq!(odd.file_name().unwrap(), b"r.ARW");
    assert_eq!(odd.with_extension(b"xmp").as_bytes(), b"/p/q/r.xmp");
    assert_eq!(odd.with_extension(b"xmp").as_raw(), b"/p//q/./r.xmp");
    assert_eq!(odd.parent().unwrap().as_raw(), b"/p//q");
    assert_eq!(path("p//").join(b"a").as_raw(), b"p//a");
    assert_eq!(path("/p/").join(b"_Rejected").as_bytes(), b"/p/_Rejected");
    assert_eq!(odd.copied().as_raw(), odd.as_raw());
}

#[test]
fn only_photographs_and_folders_can_be_scanned() {
    let path = PhotoPath::from_text;
    let entries = || {
        vec![
            (path("p/DSC10.ARW"), true),
            (path("p/DSC2.arw"), true),
            (path("p/folder.ARW"), false),
            (path("p/note.txt"), true),
        ]
    };
    let shown = |files: Vec<PhotoPath>| -> Vec<String> {
        files.iter().map(|file| file.display()).collect()
    };
    assert_eq!(
        shown(scan_arw_paths(&path("p"), Kind::Folder, entries()).unwrap()),
        ["p/DSC2.arw", "p/DSC10.ARW"]
    );
    assert_eq!(
        shown(scan_arw_paths(&path("p/a.ArW"), Kind::File, Vec::new()).unwrap()),
        ["p/a.ArW"]
    );
    assert_eq!(
        scan_arw_paths(&path("p/a.jpg"), Kind::File, Vec::new()).unwrap_err(),
        "input file must have an .ARW extension"
    );
    assert_eq!(
        scan_arw_paths(&path("p/a.ARW"), Kind::Other, Vec::new()).unwrap_err(),
        "input must be an ARW file or directory"
    );
}

#[test]
fn a_navigator_of_nothing_is_the_default() {
    let navigator = Navigator::default();
    assert_eq!(navigator.index(), None);
    assert_eq!(navigator.direction(), Direction::Forward);
}

#[test]
fn paths_are_compared_as_the_system_compares_them() {
    let names = [
        "", "/", ".", "..", "a", "/a", "./a", "../a", "!/a", "a/b", "a b", "a!/b", "a/../b", "a/!b",
        "a/.b", "a/..b", "a/...", "a//b", "a/b/", "a/./b", "//a", "/./a/", "/../a", "a\u{ff}/b", "-/a",
        ".a", "..a", "./..", "../..", "a.b/c",
    ];
    for a in names {
        for b in names {
            let (left, right) = (PhotoPath::from_text(a), PhotoPath::from_text(b));
            let expected = std::path::Path::new(a).cmp(std::path::Path::new(b));
            let order = match compare_paths(&left, &right) {
                Order::Less => Ordering::Less,
                Order::Equal => Ordering::Equal,
                Order::Greater => Ordering::Greater,
            };
            assert_eq!(order, expected, "{a:?} {b:?}");
            assert_eq!(left.same(&right), expected == Ordering::Equal, "{a:?} {b:?}");
        }
        let path = PhotoPath::from_text(a);
        let parent = std::path::Path::new(a).parent().map(|parent| parent.to_str().unwrap());
        assert_eq!(path.parent().map(|parent| parent.display()).as_deref(), parent, "{a:?}");
        let name = std::path::Path::new(a).file_name().map(|name| name.to_str().unwrap());
        let ours = path.file_name().map(|name| String::from_utf8(name).unwrap());
        assert_eq!(ours.as_deref(), name, "{a:?}");
        let mut other = std::path::PathBuf::from(a);
        other.set_extension("xmp");
        assert_eq!(path.with_extension(b"xmp").display(), other.to_str().unwrap(), "{a:?}");
        let inside = std::path::Path::new(a).join("x");
        assert_eq!(path.join(b"x").display(), inside.to_str().unwrap(), "{a:?}");
    }
}

#[test]
fn lists_keep_the_spelling_of_their_paths() {
    let path = PhotoPath::from_text;
    let raw = |files: Vec<PhotoPath>| -> Vec<String> {
        files.iter().map(|file| file.display()).collect()
    };
    let files = || vec![path("p//10.ARW"), path("p/./2.ARW"), path("p/1.ARW")];
    assert_eq!(raw(sort(files())), ["p/1.ARW", "p/./2.ARW", "p//10.ARW"]);
    let entries = files().into_iter().map(|file| (file, true)).collect();
    assert_eq!(
        raw(scan_arw_paths(&path("p"), Kind::Folder, entries).unwrap()),
        ["p/1.ARW", "p/./2.ARW", "p//10.ARW"]
    );
    assert_eq!(
        raw(scan_arw_paths(&path("p//a.ARW"), Kind::File, Vec::new()).unwrap()),
        ["p//a.ARW"]
    );
    let rating = |file: &PhotoPath| {
        if file.same(&PhotoPath::from_text("p/10.ARW")) {
            Some(5)
        } else {
            None
        }
    };
    assert_eq!(raw(select_visible(&files(), PhotoFilter::Stars(5), rating)), ["p//10.ARW"]);
    assert_eq!(raw(select_visible(&files(), PhotoFilter::All, rating)), raw(files()));
}
