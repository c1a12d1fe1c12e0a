use pixelveil::color_channel::Channel;
use pixelveil::options::{build_channels, create_out_name, parse_channel};

fn flags(c: Channel) -> (bool, bool, bool, bool) {
    (c.red, c.green, c.blue, c.alpha)
}

fn words(list: &[&str]) -> Vec<String> {
    list.iter().map(|s| String::from(*s)).collect()
}

#[test]
fn letters_mark_components() {
    assert_eq!(flags(parse_channel("rgb")), (true, true, true, false));
    assert_eq!(flags(parse_channel("a")), (false, false, false, true));
    assert_eq!(flags(parse_channel("bar")), (true, false, true, true));
    assert_eq!(flags(parse_channel("")), (false, false, false, false));
    assert_eq!(flags(parse_channel("xyz")), (false, false, false, false));
    assert_eq!(flags(parse_channel("R")), (false, false, false, false));
}

#[test]
fn words_become_masks_whatever_their_case() {
    let got: Vec<_> = build_channels(words(&["RGB", "a", "Gb", "", "rA"]))
        .into_iter()
        .map(flags)
        .collect();
    assert_eq!(
        got,
        vec![
            (true, true, true, false),
            (false, false, false, true),
            (false, true, true, false),
            (false, false, false, false),
            (true, false, false, true),
        ]
    );
    assert!(build_channels(vec![]).is_empty());
}

#[test]
fn out_name_goes_before_the_extension() {
    assert_eq!(create_out_name("photo.png"), "photo-out.png");
    assert_eq!(create_out_name("a.b.c"), "a.b-out.c");
    assert_eq!(create_out_name("dir.d/photo.png"), "dir.d/photo-out.png");
}

#[test]
fn out_name_without_a_dot() {
    assert_eq!(create_out_name("noext"), "-out.noext");
    assert_eq!(create_out_name(""), "-out.");
}

#[test]
fn out_name_with_dots_at_the_ends() {
    assert_eq!(create_out_name(".hidden"), "-out.hidden");
    assert_eq!(create_out_name("trailing."), "trailing-out.");
    assert_eq!(create_out_name("."), "-out.");
}

#[test]
fn out_name_counts_chars_not_bytes() {
    assert_eq!(create_out_name("gr\u{fc}\u{df}e.bild.png"), "gr\u{fc}\u{df}e.bild-out.png");
    assert_eq!(create_out_name("\u{1f600}.\u{1f600}"), "\u{1f600}-out.\u{1f600}");
}
