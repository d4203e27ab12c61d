use dbgtools_win::minidump::{
    allocate, next_slot, parse_slot, sequenced_name, unsequenced_name, LAST_SLOT,
};

fn names(list: &[&str]) -> Vec<String> {
    list.iter().map(|s| s.to_string()).collect()
}

#[test]
fn empty_directory_gives_zero() {
    assert_eq!(next_slot(&names(&[]), "app", "dmp"), 0);
    assert_eq!(allocate(&names(&[]), "app", "dmp"), "app-0000.dmp");
}

#[test]
fn numbers_follow_each_other() {
    let dir = names(&["app-0000.dmp"]);
    assert_eq!(next_slot(&dir, "app", "dmp"), 1);
    assert_eq!(allocate(&dir, "app", "dmp"), "app-0001.dmp");
    let dir = names(&["app-0000.dmp", "app-0001.dmp", "app-0002.dmp"]);
    assert_eq!(next_slot(&dir, "app", "dmp"), 3);
}

#[test]
fn smallest_gap_is_filled_first() {
    let dir = names(&["app-0000.dmp", "app-0001.dmp", "app-0003.dmp", "app-0005.dmp"]);
    assert_eq!(next_slot(&dir, "app", "dmp"), 2);
    let dir = names(&["app-0001.dmp", "app-0002.dmp"]);
    assert_eq!(next_slot(&dir, "app", "dmp"), 0);
    let dir = names(&["app-0000.dmp", "app-0001.dmp", "app-0002.dmp", "app-0004.dmp"]);
    assert_eq!(allocate(&dir, "app", "dmp"), "app-0003.dmp");
}

#[test]
fn order_and_repeats_of_the_listing_do_not_matter() {
    let a = names(&["app-0002.dmp", "app-0000.dmp", "app-0001.dmp"]);
    let b = names(&["app-0000.dmp", "app-0001.dmp", "app-0002.dmp", "app-0001.dmp"]);
    assert_eq!(next_slot(&a, "app", "dmp"), 3);
    assert_eq!(next_slot(&b, "app", "dmp"), 3);
}

#[test]
fn unchanged_directory_gives_the_same_number_twice() {
    let dir = names(&["app-0000.dmp", "notes.txt", "app-0002.dmp"]);
    let first = next_slot(&dir, "app", "dmp");
    let second = next_slot(&dir, "app", "dmp");
    assert_eq!(first, 1);
    assert_eq!(first, second);
    assert_eq!(allocate(&dir, "app", "dmp"), allocate(&dir, "app", "dmp"));
}

#[test]
fn full_range_gives_the_last_number() {
    let mut dir: Vec<String> = Vec::new();
    for n in 0..0xFFFFu32 {
        dir.push(format!("app-{:04x}.dmp", n));
    }
    assert_eq!(dir.len(), 65535);
    assert_eq!(next_slot(&dir, "app", "dmp"), 0xFFFF);
    assert_eq!(next_slot(&dir, "app", "dmp"), LAST_SLOT);
    assert_eq!(allocate(&dir, "app", "dmp"), "app-ffff.dmp");
    dir.push("app-ffff.dmp".to_string());
    assert_eq!(next_slot(&dir, "app", "dmp"), 0xFFFF);
    assert_eq!(allocate(&dir, "app", "dmp"), "app-ffff.dmp");
}

#[test]
fn full_range_but_one_gives_that_one() {
    let mut dir: Vec<String> = Vec::new();
    for n in 0..0xFFFFu32 {
        if n != 0xABCD {
            dir.push(format!("app-{:04X}.dmp", n));
        }
    }
    assert_eq!(next_slot(&dir, "app", "dmp"), 0xABCD);
    assert_eq!(allocate(&dir, "app", "dmp"), "app-abcd.dmp");
}

#[test]
fn last_number_alone_does_not_count() {
    let dir = names(&["app-ffff.dmp"]);
    assert_eq!(next_slot(&dir, "app", "dmp"), 0);
}

#[test]
fn successive_dumps_then_a_deleted_one() {
    let mut dir: Vec<String> = Vec::new();
    let first = allocate(&dir, "minidump", "dmp");
    assert_eq!(first, "minidump-0000.dmp");
    dir.push(first);
    let second = allocate(&dir, "minidump", "dmp");
    assert_eq!(second, "minidump-0001.dmp");
    dir.push(second);
    dir.remove(0);
    let third = allocate(&dir, "minidump", "dmp");
    assert_eq!(third, "minidump-0000.dmp");
}

#[test]
fn other_names_are_passed_over() {
    let dir = names(&[
        "app-0000.txt",
        "other-0000.dmp",
        "app-000.dmp",
        "app-00000.dmp",
        "app-000g.dmp",
        "app_0000.dmp",
        "app-0000-dmp",
        "app-0000.dmp.bak",
        "xapp-0000.dmp",
        "app.dmp",
        "",
    ]);
    assert_eq!(next_slot(&dir, "app", "dmp"), 0);
}

#[test]
fn digits_count_in_either_case() {
    let dir = names(&["app-0000.dmp", "app-0001.dmp"]);
    assert_eq!(next_slot(&dir, "app", "dmp"), 2);
    assert_eq!(parse_slot("app-00aB.dmp", "app", "dmp"), Some(0x00ab));
    assert_eq!(parse_slot("app-ABCD.dmp", "app", "dmp"), Some(0xabcd));
    assert_eq!(parse_slot("app-abcd.dmp", "app", "dmp"), Some(0xabcd));
    assert_eq!(parse_slot("app-FfFf.dmp", "app", "dmp"), Some(0xffff));
}

#[test]
fn parse_slot_reads_the_four_digits() {
    assert_eq!(parse_slot("app-0000.dmp", "app", "dmp"), Some(0));
    assert_eq!(parse_slot("app-1234.dmp", "app", "dmp"), Some(0x1234));
    assert_eq!(parse_slot("app-0010.dmp", "app", "dmp"), Some(16));
    assert_eq!(parse_slot("app-0100.dmp", "app", "dmp"), Some(256));
    assert_eq!(parse_slot("app-1000.dmp", "app", "dmp"), Some(4096));
    assert_eq!(parse_slot("-0007.", "", ""), Some(7));
    assert_eq!(parse_slot("my-app-0007.dmp", "my-app", "dmp"), Some(7));
}

#[test]
fn parse_slot_refuses_other_forms() {
    assert_eq!(parse_slot("app-0000.dmp", "App", "dmp"), None);
    assert_eq!(parse_slot("app-0000.dmp", "app", "DMP"), None);
    assert_eq!(parse_slot("app-12g4.dmp", "app", "dmp"), None);
    assert_eq!(parse_slot("app-123.dmp", "app", "dmp"), None);
    assert_eq!(parse_slot("app-12345.dmp", "app", "dmp"), None);
    assert_eq!(parse_slot("app+1234.dmp", "app", "dmp"), None);
    assert_eq!(parse_slot("app-1234,dmp", "app", "dmp"), None);
    assert_eq!(parse_slot("app.dmp", "app", "dmp"), None);
    assert_eq!(parse_slot("", "app", "dmp"), None);
    assert_eq!(parse_slot("app-1234.dmp", "my-app", "dmp"), None);
    assert_eq!(parse_slot("app- 123.dmp", "app", "dmp"), None);
}

#[test]
fn names_beyond_ascii() {
    assert_eq!(parse_slot("döner-00ff.dümp", "döner", "dümp"), Some(255));
    assert_eq!(parse_slot("döner-00ff.dmp", "doner", "dmp"), None);
    assert_eq!(sequenced_name("döner", 255, "dümp"), "döner-00ff.dümp");
    let dir = names(&["döner-0000.dmp"]);
    assert_eq!(allocate(&dir, "döner", "dmp"), "döner-0001.dmp");
}

#[test]
fn sequenced_name_has_four_lower_case_digits() {
    assert_eq!(sequenced_name("app", 0, "dmp"), "app-0000.dmp");
    assert_eq!(sequenced_name("app", 0x00ff, "dmp"), "app-00ff.dmp");
    assert_eq!(sequenced_name("app", 0xABCD, "dmp"), "app-abcd.dmp");
    assert_eq!(sequenced_name("app", 0xFFFF, "dmp"), "app-ffff.dmp");
    assert_eq!(sequenced_name("app", 0x1000, "dmp"), "app-1000.dmp");
    assert_eq!(sequenced_name("", 9, ""), "-0009.");
}

#[test]
fn sequenced_name_is_read_back() {
    for n in [0u16, 1, 9, 10, 15, 16, 255, 256, 4095, 4096, 0xABCD, 0xFFFE, 0xFFFF] {
        let name = sequenced_name("app", n, "dmp");
        assert_eq!(parse_slot(&name, "app", "dmp"), Some(n));
    }
}

#[test]
fn unsequenced_name_joins_base_and_extension() {
    assert_eq!(unsequenced_name("minidump", "dmp"), "minidump.dmp");
    assert_eq!(unsequenced_name("", ""), ".");
    assert_eq!(parse_slot(&unsequenced_name("app", "dmp"), "app", "dmp"), None);
}
