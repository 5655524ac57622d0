use dataset_tools::captions::{fix_tags, split_content};
use dataset_tools::files::to_ascii_lower;
use dataset_tools::text::{
    chars_before, chars_of, split_ranges, str_before, str_eq, string_of, trim_range,
};

#[test]
fn caption_splits_into_tags_and_sentences() {
    let (tags, sentences) = split_content("a, b, c., A sentence.");
    assert_eq!(tags, vec!["a", " b", " c"]);
    assert_eq!(sentences, "A sentence.");
}

#[test]
fn caption_without_mark_has_no_sentences() {
    let (tags, sentences) = split_content("solo,duo");
    assert_eq!(tags, vec!["solo", "duo"]);
    assert_eq!(sentences, "");
    let (tags, sentences) = split_content("");
    assert_eq!(tags, vec![""]);
    assert_eq!(sentences, "");
    let (tags, sentences) = split_content("a.,");
    assert_eq!(tags, vec!["a.", ""]);
    assert_eq!(sentences, "");
}

#[test]
fn sentences_end_at_the_second_mark() {
    let (tags, sentences) = split_content("t1,t2.,   first one  ., second");
    assert_eq!(tags, vec!["t1", "t2"]);
    assert_eq!(sentences, "first one");
    let (tags, sentences) = split_content("., ., x");
    assert_eq!(tags, vec![""]);
    assert_eq!(sentences, "");
    let (tags, sentences) = split_content("a., ");
    assert_eq!(tags, vec!["a"]);
    assert_eq!(sentences, "");
}

#[test]
fn caption_with_wide_characters() {
    let (tags, sentences) = split_content("猫,犬.,  Ünïcödé \u{3000}");
    assert_eq!(tags, vec!["猫", "犬"]);
    assert_eq!(sentences, "Ünïcödé");
}

#[test]
fn tags_are_joined_on_one_line() {
    assert_eq!(fix_tags("a, b\nc,, d \r\n e"), "a, b, c, d, e");
    assert_eq!(fix_tags("one tag"), "one tag");
    assert_eq!(fix_tags("  x  ,y\n"), "x, y");
    assert_eq!(fix_tags("a\n\n\nb"), "a, b");
}

#[test]
fn nothing_but_breaks_gives_nothing() {
    assert_eq!(fix_tags(""), "");
    assert_eq!(fix_tags(" , \n,\r\n"), "");
}

#[test]
fn text_helpers() {
    assert!(str_eq("abc", "abc"));
    assert!(!str_eq("abc", "abd"));
    assert!(!str_eq("abc", "ab"));
    assert_eq!(chars_of("héllo"), vec!['h', 'é', 'l', 'l', 'o']);
    assert_eq!(string_of(&vec!['o', 'k']), "ok");
    assert_eq!(string_of(&vec![]), "");
    let text = chars_of("a_b..c");
    assert_eq!(split_ranges(&text, &vec!['_', '.']), vec![(0, 1), (2, 3), (4, 4), (5, 6)]);
    assert_eq!(split_ranges(&vec![], &vec![',']), vec![(0, 0)]);
    let text = chars_of("  \t pad \n");
    assert_eq!(trim_range(&text, 0, text.len()), (4, 7));
    assert_eq!(trim_range(&text, 0, 3), (3, 3));
    assert_eq!(trim_range(&text, 4, 7), (4, 7));
}

#[test]
fn dictionary_order_of_texts() {
    assert!(str_before("", "a"));
    assert!(!str_before("", ""));
    assert!(!str_before("a", ""));
    assert!(str_before("a", "b"));
    assert!(str_before("a", "ab"));
    assert!(str_before("ab", "b"));
    assert!(str_before("Z", "a"));
    assert!(str_before("layer.10", "layer.9"));
    assert!(!str_before("same", "same"));
    assert!(!str_before("b", "ab"));
    assert!(str_before("z", "é"));
    assert!(chars_before(&vec!['x'], &vec!['x', 'y']));
    assert!(!chars_before(&vec!['x', 'y'], &vec!['x']));
}

#[test]
fn ascii_capitals_are_lowered() {
    assert_eq!(to_ascii_lower('A'), 'a');
    assert_eq!(to_ascii_lower('Z'), 'z');
    assert_eq!(to_ascii_lower('m'), 'm');
    assert_eq!(to_ascii_lower('@'), '@');
    assert_eq!(to_ascii_lower('['), '[');
    assert_eq!(to_ascii_lower('É'), 'É');
}

#[test]
fn names_at_the_root_of_the_crate() {
    assert!(dataset_tools::is_image_file("a.png"));
    assert_eq!(dataset_tools::split_content("a,b").0, vec!["a", "b"]);
    assert!(dataset_tools::get_json_metadata(&[]).is_err());
}

#[test]
fn every_white_space_character_is_trimmed() {
    let blanks = [
        '\u{9}', '\u{a}', '\u{b}', '\u{c}', '\u{d}', ' ', '\u{85}', '\u{a0}', '\u{1680}',
        '\u{2000}', '\u{2001}', '\u{2005}', '\u{200a}', '\u{2028}', '\u{2029}', '\u{202f}',
        '\u{205f}', '\u{3000}',
    ];
    for blank in blanks {
        let text = vec![blank, 'x', blank];
        assert_eq!(trim_range(&text, 0, 3), (1, 2));
    }
    let others = ['\u{8}', '\u{e}', '\u{1f}', '!', '\u{84}', '\u{86}', '\u{180e}', '\u{1fff}',
        '\u{200b}', '\u{2027}', '\u{202a}', '\u{2060}', '\u{2fff}', '\u{3001}', '\u{feff}'];
    for other in others {
        let text = vec![other, 'x', other];
        assert_eq!(trim_range(&text, 0, 3), (0, 3));
    }
}
