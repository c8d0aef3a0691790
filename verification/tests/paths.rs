use img_to_ascii::get_destination;
use img_to_ascii::paths::file_name;
use img_to_ascii::paths::names_folder;
use img_to_ascii::strings::chars_of;

#[test]
fn destination_drops_folders_and_extension() {
    assert_eq!(get_destination("images\\cat.png", "output"), "output\\cat");
    assert_eq!(get_destination("a\\b\\c\\dog.jpeg", "out"), "out\\dog");
}

#[test]
fn destination_of_a_bare_name() {
    assert_eq!(get_destination("cat.png", "output"), "output\\cat");
    assert_eq!(get_destination("cat", "output"), "output\\cat");
}

#[test]
fn destination_stops_at_the_first_dot() {
    assert_eq!(get_destination("shots\\cat.tar.gz", "output"), "output\\cat");
    assert_eq!(get_destination("shots\\.hidden", "output"), "output\\");
    assert_eq!(get_destination("my.shots\\cat.png", "output"), "output\\cat");
}

#[test]
fn destination_of_a_path_that_ends_in_a_folder() {
    assert_eq!(get_destination("images\\", "output"), "output\\");
    assert_eq!(get_destination("", "output"), "output\\");
    assert_eq!(get_destination("cat.png", ""), "\\cat");
}

#[test]
fn destination_keeps_other_characters() {
    assert_eq!(get_destination("bilder\\käse/é.png", "aus gabe"), "aus gabe\\käse/é");
}

#[test]
fn file_name_is_what_follows_the_last_backslash() {
    assert_eq!(file_name("images\\cat.png"), "cat.png");
    assert_eq!(file_name("a\\b\\c"), "c");
    assert_eq!(file_name("cat.png"), "cat.png");
    assert_eq!(file_name("images\\"), "");
    assert_eq!(file_name(""), "");
}

#[test]
fn a_name_without_a_dot_is_a_folder() {
    assert!(names_folder("images"));
    assert!(names_folder("images\\frames"));
    assert!(names_folder(""));
    assert!(!names_folder("cat.png"));
    assert!(!names_folder("images\\cat.png"));
    assert!(!names_folder("."));
}

#[test]
fn chars_of_lists_every_character() {
    assert_eq!(chars_of(""), Vec::<char>::new());
    assert_eq!(chars_of("a█b"), vec!['a', '█', 'b']);
}
