use autosplash::request::{
    directory, pick_category, plan_change, request_for, unsplash_url, Timestamp,
};
use chrono::{Local, NaiveDate, NaiveDateTime};

fn moment(year: i32, month: u32, day: u32, hour: u32, minute: u32, second: u32) -> Timestamp {
    match Timestamp::new(year, month, day, hour, minute, second) {
        Some(t) => t,
        None => panic!("the fields should be in range"),
    }
}

fn list(items: &[&str]) -> Vec<String> {
    items.iter().map(|s| s.to_string()).collect()
}

#[test]
fn url_has_size_and_category() {
    assert_eq!(
        unsplash_url(1920, 1080, "nature"),
        "https://source.unsplash.com/1920x1080/?nature"
    );
    assert_eq!(unsplash_url(800, 600, "ocean"), "https://source.unsplash.com/800x600/?ocean");
}

#[test]
fn url_keeps_the_category_as_it_is() {
    assert_eq!(
        unsplash_url(1, 2, "deep space & més/ö?"),
        "https://source.unsplash.com/1x2/?deep space & més/ö?"
    );
    assert_eq!(unsplash_url(1, 2, ""), "https://source.unsplash.com/1x2/?");
}

#[test]
fn url_agrees_with_plain_formatting() {
    for width in [0u16, 1, 9, 10, 99, 100, 1000, 1920, 9999, 10000, 65535] {
        for height in [0u16, 7, 10, 1080, 65535] {
            assert_eq!(
                unsplash_url(width, height, "cats"),
                format!("https://source.unsplash.com/{}x{}/?{}", width, height, "cats")
            );
        }
    }
}

#[test]
fn timestamp_takes_fields_in_range_only() {
    assert!(Timestamp::new(2024, 1, 1, 0, 0, 0).is_some());
    assert!(Timestamp::new(2024, 12, 31, 23, 59, 59).is_some());
    assert!(Timestamp::new(-5, 2, 31, 0, 0, 0).is_some());
    assert!(Timestamp::new(2024, 0, 1, 0, 0, 0).is_none());
    assert!(Timestamp::new(2024, 13, 1, 0, 0, 0).is_none());
    assert!(Timestamp::new(2024, 1, 0, 0, 0, 0).is_none());
    assert!(Timestamp::new(2024, 1, 32, 0, 0, 0).is_none());
    assert!(Timestamp::new(2024, 1, 1, 24, 0, 0).is_none());
    assert!(Timestamp::new(2024, 1, 1, 0, 60, 0).is_none());
    assert!(Timestamp::new(2024, 1, 1, 0, 0, 60).is_none());
}

#[test]
fn stamp_pads_every_field() {
    assert_eq!(moment(2024, 3, 9, 7, 5, 1).stamp(), "2024-03-09_07-05-01");
    assert_eq!(moment(2019, 12, 31, 23, 59, 59).stamp(), "2019-12-31_23-59-59");
    assert_eq!(moment(987, 1, 1, 0, 0, 0).stamp(), "0987-01-01_00-00-00");
    assert_eq!(moment(0, 1, 1, 0, 0, 0).stamp(), "0000-01-01_00-00-00");
}

#[test]
fn stamp_signs_years_out_of_four_digits() {
    assert_eq!(moment(10000, 1, 1, 0, 0, 0).stamp(), "+10000-01-01_00-00-00");
    assert_eq!(moment(-1, 1, 1, 0, 0, 0).stamp(), "-0001-01-01_00-00-00");
    assert_eq!(moment(-12345, 6, 7, 8, 9, 10).stamp(), "-12345-06-07_08-09-10");
    assert_eq!(moment(i32::MAX, 1, 1, 0, 0, 0).stamp(), "+2147483647-01-01_00-00-00");
    assert_eq!(moment(i32::MIN, 1, 1, 0, 0, 0).stamp(), "-2147483648-01-01_00-00-00");
}

#[test]
fn stamp_agrees_with_chrono() {
    let cases = [
        (2024, 3, 9, 7, 5, 1),
        (2019, 12, 31, 23, 59, 59),
        (1970, 1, 1, 0, 0, 0),
        (2000, 2, 29, 12, 30, 45),
        (999, 10, 10, 10, 10, 10),
        (1, 1, 1, 1, 1, 1),
        (0, 6, 15, 6, 7, 8),
        (-1, 12, 24, 18, 0, 0),
        (-9999, 1, 2, 3, 4, 5),
        (9999, 12, 31, 23, 59, 59),
        (10000, 1, 1, 0, 0, 0),
        (262142, 12, 31, 23, 59, 59),
        (-262143, 1, 1, 0, 0, 0),
    ];
    for (year, month, day, hour, minute, second) in cases {
        let theirs = NaiveDate::from_ymd_opt(year, month, day)
            .and_then(|d| d.and_hms_opt(hour, minute, second))
            .map(|t| t.format("%Y-%m-%d_%H-%M-%S").to_string());
        assert_eq!(Some(moment(year, month, day, hour, minute, second).stamp()), theirs);
    }
}

#[test]
fn file_name_is_under_the_wallpapers_directory() {
    assert_eq!(directory(), "wallpapers");
    assert_eq!(
        moment(2024, 3, 9, 7, 5, 1).file_name(),
        "wallpapers/autosplash_2024-03-09_07-05-01.jpg"
    );
}

#[test]
fn file_names_differ_from_second_to_second() {
    let base = moment(2024, 3, 9, 7, 5, 1);
    let others = [
        moment(2024, 3, 9, 7, 5, 2),
        moment(2024, 3, 9, 7, 6, 1),
        moment(2024, 3, 9, 8, 5, 1),
        moment(2024, 3, 10, 7, 5, 1),
        moment(2024, 4, 9, 7, 5, 1),
        moment(2025, 3, 9, 7, 5, 1),
        moment(2024, 1, 11, 1, 1, 1),
        moment(2024, 11, 1, 1, 1, 1),
        moment(-2024, 3, 9, 7, 5, 1),
        moment(12024, 3, 9, 7, 5, 1),
    ];
    let mut names = vec![base.file_name()];
    for other in others {
        let name = other.file_name();
        assert!(!names.contains(&name), "{}", name);
        names.push(name);
    }
}

#[test]
fn file_names_within_one_second_are_the_same() {
    assert_eq!(moment(2024, 3, 9, 7, 5, 1).file_name(), moment(2024, 3, 9, 7, 5, 1).file_name());
}

#[test]
fn now_is_the_local_time_of_the_clock() {
    let before = Local::now().naive_local();
    let stamp = Timestamp::now().stamp();
    let after = Local::now().naive_local();
    let read = NaiveDateTime::parse_from_str(&stamp, "%Y-%m-%d_%H-%M-%S")
        .unwrap_or_else(|e| panic!("{}: {}", stamp, e));
    assert!((read - before).num_seconds().abs() <= 2, "{} against {}", stamp, before);
    assert!((after - read).num_seconds().abs() <= 2, "{} against {}", stamp, after);
}

#[test]
fn request_holds_category_url_and_file() {
    let request = request_for("ocean", 1920, 1080, &moment(2024, 3, 9, 7, 5, 1));
    assert_eq!(request.category, "ocean");
    assert_eq!(request.url, "https://source.unsplash.com/1920x1080/?ocean");
    assert_eq!(request.file_name, "wallpapers/autosplash_2024-03-09_07-05-01.jpg");
}

#[test]
fn picked_category_is_one_of_the_list() {
    let categories = list(&["nature", "ocean", "space"]);
    let mut seen = [false; 3];
    for _ in 0..600 {
        let chosen = pick_category(&categories).unwrap_or_else(|| panic!("nothing chosen"));
        let index = categories.iter().position(|c| c == chosen);
        assert!(index.is_some(), "{:?}", chosen);
        seen[index.unwrap()] = true;
    }
    assert_eq!(seen, [true, true, true]);
}

#[test]
fn single_category_is_always_picked() {
    let categories = list(&["nature"]);
    for _ in 0..50 {
        assert_eq!(pick_category(&categories), Some(&"nature".to_string()));
    }
}

#[test]
fn nothing_is_picked_from_an_empty_list() {
    assert_eq!(pick_category(&Vec::new()), None);
    assert!(plan_change(&Vec::new(), 1920, 1080).is_none());
}

#[test]
fn planned_change_asks_for_a_listed_category_and_names_the_file_by_the_clock() {
    let categories = list(&["nature", "ocean"]);
    for _ in 0..20 {
        let before = Local::now().naive_local();
        let request = plan_change(&categories, 1920, 1080).unwrap_or_else(|| panic!("no request"));
        assert!(categories.contains(&request.category));
        assert_eq!(
            request.url,
            format!("https://source.unsplash.com/1920x1080/?{}", request.category)
        );
        let stamp = request
            .file_name
            .strip_prefix("wallpapers/autosplash_")
            .and_then(|rest| rest.strip_suffix(".jpg"))
            .unwrap_or_else(|| panic!("{}", request.file_name));
        let read = NaiveDateTime::parse_from_str(stamp, "%Y-%m-%d_%H-%M-%S")
            .unwrap_or_else(|e| panic!("{}: {}", stamp, e));
        assert!((read - before).num_seconds().abs() <= 2);
    }
}

#[test]
fn timestamp_hands_its_fields_back() {
    let t = moment(2024, 3, 9, 7, 5, 1);
    assert_eq!(t.year(), 2024);
    assert_eq!(t.month(), 3);
    assert_eq!(t.day(), 9);
    assert_eq!(t.hour(), 7);
    assert_eq!(t.minute(), 5);
    assert_eq!(t.second(), 1);
}
