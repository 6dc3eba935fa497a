use autosplash::change::{after, failure_message, first_step, Next, Outcome, Step};

#[test]
fn a_change_begins_by_looking_for_the_directory() {
    assert_eq!(first_step(), Step::FindDirectory);
}

#[test]
fn the_directory_is_created_only_where_it_is_missing() {
    assert_eq!(after(Step::FindDirectory, Outcome::Done), Next::Continue(Step::CreateFile));
    assert_eq!(after(Step::FindDirectory, Outcome::Failed), Next::Continue(Step::CreateDirectory));
    assert_eq!(after(Step::CreateDirectory, Outcome::Done), Next::Continue(Step::CreateFile));
}

#[test]
fn a_change_that_meets_no_failure_runs_to_the_end() {
    let mut step = first_step();
    let mut seen = vec![step];
    loop {
        match after(step, Outcome::Done) {
            Next::Continue(next) => {
                step = next;
                seen.push(step);
            }
            Next::Finished => break,
            Next::Fatal(_) => panic!("nothing failed"),
        }
    }
    assert_eq!(
        seen,
        vec![Step::FindDirectory, Step::CreateFile, Step::Download, Step::Save, Step::Apply]
    );
}

#[test]
fn every_failure_after_the_search_is_fatal() {
    for step in [Step::CreateDirectory, Step::CreateFile, Step::Download, Step::Save, Step::Apply] {
        assert_eq!(after(step, Outcome::Failed), Next::Fatal(step));
    }
}

#[test]
fn only_setting_the_wallpaper_completes_a_change() {
    for step in [
        Step::FindDirectory,
        Step::CreateDirectory,
        Step::CreateFile,
        Step::Download,
        Step::Save,
    ] {
        assert_ne!(after(step, Outcome::Done), Next::Finished);
    }
    assert_eq!(after(Step::Apply, Outcome::Done), Next::Finished);
}

#[test]
fn failure_messages_name_the_step() {
    assert_eq!(failure_message(Step::FindDirectory), "Failed to find wallpapers directory");
    assert_eq!(failure_message(Step::CreateDirectory), "Failed to create wallpapers directory");
    assert_eq!(failure_message(Step::CreateFile), "Failed to create wallpaper file");
    assert_eq!(failure_message(Step::Download), "Failed to request wallpaper");
    assert_eq!(failure_message(Step::Save), "Failed to save wallpaper");
    assert_eq!(failure_message(Step::Apply), "Failed to set wallpaper");
}
