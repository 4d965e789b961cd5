use langmatch::bstr::{bytes_equal, str_equal, Bstr};
use langmatch::filename::{
    classify_delimiter, classify_flag, extract_tag, guess_lang, is_known_language,
    mp_guess_lang_from_filename, splice_tag, Delimiter, CLOSE_BRACKET, CLOSE_PAREN, DOT,
    OPEN_BRACKET, OPEN_PAREN,
};
use langmatch::track_flags;

fn scan(name: &str) -> (Option<(usize, &str, Delimiter)>, i32) {
    guess_lang(&Bstr::new(name))
}

#[test]
fn track_flag_bits() {
    assert_eq!(track_flags::NONE, 0);
    assert_eq!(track_flags::HEARING_IMPAIRED, 1 << 2);
    assert_eq!(track_flags::VISUAL_IMPAIRED, 1 << 3);
    assert_eq!(track_flags::ATTACHED_PICTURE, 1 << 4);
    assert_eq!(track_flags::FORCED, 1 << 5);
    assert_eq!(track_flags::DEFAULT, 1 << 6);
}

#[test]
fn delimiter_bytes() {
    assert_eq!(DOT, b'.');
    assert_eq!(OPEN_BRACKET, b'[');
    assert_eq!(CLOSE_BRACKET, b']');
    assert_eq!(OPEN_PAREN, b'(');
    assert_eq!(CLOSE_PAREN, b')');
    assert_eq!(classify_delimiter(b'.'), Some(Delimiter::Dot));
    assert_eq!(classify_delimiter(b'['), Some(Delimiter::Bracket));
    assert_eq!(classify_delimiter(b'('), Some(Delimiter::Paren));
    assert_eq!(classify_delimiter(b']'), None);
    assert_eq!(classify_delimiter(b')'), None);
    assert_eq!(classify_delimiter(b'-'), None);
    assert_eq!(Delimiter::Dot.len(), 1);
    assert_eq!(Delimiter::Bracket.len(), 1);
    assert_eq!(Delimiter::Paren.len(), 1);
}

#[test]
fn scan_plain_language_tag() {
    assert_eq!(scan("movie.en.mp4"), (Some((5, "en", Delimiter::Dot)), track_flags::NONE));
}

#[test]
fn scan_flag_before_tag() {
    assert_eq!(
        scan("movie.en.hi.mp4"),
        (Some((5, "en", Delimiter::Dot)), track_flags::HEARING_IMPAIRED)
    );
}

#[test]
fn scan_extension_only() {
    assert_eq!(scan("movie.mp4"), (None, track_flags::NONE));
}

#[test]
fn scan_empty_name() {
    assert_eq!(scan(""), (None, track_flags::NONE));
}

#[test]
fn scan_twice_gives_the_same() {
    let name = String::from("movie.pt-BR.forced.sdh.mkv");
    let first = scan(&name);
    let second = scan(&name);
    assert_eq!(first, second);
    assert_eq!(
        first,
        (Some((5, "pt-BR", Delimiter::Dot)), track_flags::FORCED | track_flags::HEARING_IMPAIRED)
    );
}

#[test]
fn scan_name_without_delimiter() {
    assert_eq!(scan("movie"), (None, track_flags::NONE));
    assert_eq!(scan("en"), (None, track_flags::NONE));
}

#[test]
fn scan_last_delimiter_must_be_a_dot() {
    assert_eq!(scan("movie.en[mp4]"), (None, track_flags::NONE));
    assert_eq!(scan("movie.en(mp4)"), (None, track_flags::NONE));
    assert_eq!(scan("movie.en.hi[mp4"), (None, track_flags::NONE));
}

#[test]
fn scan_every_flag_word() {
    assert_eq!(scan("a.en.hi.srt").1, track_flags::HEARING_IMPAIRED);
    assert_eq!(scan("a.en.sdh.srt").1, track_flags::HEARING_IMPAIRED);
    assert_eq!(scan("a.en.cc.srt").1, track_flags::HEARING_IMPAIRED);
    assert_eq!(scan("a.en.forced.srt").1, track_flags::FORCED);
    assert_eq!(scan("a.en.default.srt").1, track_flags::DEFAULT);
    assert_eq!(
        scan("a.en.default.forced.cc.srt"),
        (
            Some((1, "en", Delimiter::Dot)),
            track_flags::DEFAULT | track_flags::FORCED | track_flags::HEARING_IMPAIRED
        )
    );
    assert_eq!(scan("a.en.hi.sdh.cc.hi.srt").1, track_flags::HEARING_IMPAIRED);
}

#[test]
fn scan_flags_without_tag() {
    assert_eq!(scan("movie.forced.srt"), (None, track_flags::FORCED));
    assert_eq!(scan("movie.xx.forced.srt"), (None, track_flags::FORCED));
    assert_eq!(scan("movie.[en.default.srt"), (None, track_flags::DEFAULT));
}

#[test]
fn scan_flag_words_are_matched_as_written() {
    assert_eq!(scan("movie.en.Forced.srt"), (None, track_flags::NONE));
    assert_eq!(scan("movie.en.Default.srt"), (None, track_flags::NONE));
    assert_eq!(scan("movie.en.SDH.srt"), (Some((8, "SDH", Delimiter::Dot)), track_flags::NONE));
    assert_eq!(scan("movie.en.HI.srt"), (Some((8, "HI", Delimiter::Dot)), track_flags::NONE));
}

#[test]
fn scan_stops_at_the_first_token_that_is_no_flag() {
    assert_eq!(scan("movie.en.title.hi.srt"), (None, track_flags::HEARING_IMPAIRED));
    assert_eq!(scan("movie.forced.en.srt"), (Some((12, "en", Delimiter::Dot)), track_flags::NONE));
    assert_eq!(scan("movie.de.en.srt"), (Some((8, "en", Delimiter::Dot)), track_flags::NONE));
}

#[test]
fn scan_unknown_language() {
    assert_eq!(scan("movie.xx.srt"), (None, track_flags::NONE));
    assert_eq!(scan("movie.1080p.srt"), (None, track_flags::NONE));
    assert_eq!(scan("movie..srt"), (None, track_flags::NONE));
}

#[test]
fn scan_head_of_the_name_is_no_token() {
    assert_eq!(scan("en.srt"), (None, track_flags::NONE));
    assert_eq!(scan("hi.srt"), (None, track_flags::NONE));
    assert_eq!(scan("forced.en.srt"), (Some((6, "en", Delimiter::Dot)), track_flags::NONE));
}

#[test]
fn scan_tag_in_brackets() {
    assert_eq!(scan("movie[en].srt"), (Some((5, "en", Delimiter::Bracket)), track_flags::NONE));
    assert_eq!(scan("movie(pt-BR).srt"), (Some((5, "pt-BR", Delimiter::Paren)), track_flags::NONE));
    assert_eq!(
        scan("movie[en][forced](sdh).srt"),
        (Some((5, "en", Delimiter::Bracket)), track_flags::FORCED | track_flags::HEARING_IMPAIRED)
    );
}

#[test]
fn scan_bracket_that_is_not_closed() {
    assert_eq!(scan("movie[en.srt"), (None, track_flags::NONE));
    assert_eq!(scan("movie(en.srt"), (None, track_flags::NONE));
    assert_eq!(scan("movie[en).srt"), (None, track_flags::NONE));
    assert_eq!(scan("movie(en].srt"), (None, track_flags::NONE));
    assert_eq!(scan("movie[en]x.srt"), (None, track_flags::NONE));
    assert_eq!(scan("movie[.hi.srt"), (None, track_flags::HEARING_IMPAIRED));
}

#[test]
fn scan_dot_token_keeps_brackets() {
    assert_eq!(scan("movie.en].srt"), (None, track_flags::NONE));
}

#[test]
fn scan_tag_with_subtags() {
    assert_eq!(scan("movie.zh-Hant-TW.srt"), (Some((5, "zh-Hant-TW", Delimiter::Dot)), track_flags::NONE));
    assert_eq!(scan("movie.eng.srt"), (Some((5, "eng", Delimiter::Dot)), track_flags::NONE));
    assert_eq!(scan("movie.iw.srt"), (Some((5, "iw", Delimiter::Dot)), track_flags::NONE));
}

#[test]
fn scan_counts_bytes() {
    let name = "\u{444}\u{438}\u{43b}\u{44c}\u{43c}.ru.mkv";
    assert_eq!(scan(name), (Some((10, "ru", Delimiter::Dot)), track_flags::NONE));
    let name = "\u{6620}\u{753b}[ja].\u{5b57}\u{5e55}.srt";
    assert_eq!(scan(name), (None, track_flags::NONE));
    let name = "\u{6620}\u{753b}[ja].srt";
    assert_eq!(scan(name), (Some((6, "ja", Delimiter::Bracket)), track_flags::NONE));
}

#[test]
fn scan_borrows_the_tag_from_the_name() {
    let name = String::from("movie.en.mp4");
    let (found, _) = scan(&name);
    let (pos, text, _) = found.unwrap();
    assert_eq!(text.as_ptr() as usize, name.as_ptr() as usize + pos + 1);
}

#[test]
fn extract_tag_takes_the_last_token() {
    assert_eq!(extract_tag("a.en", 4), Some((1, "en", Delimiter::Dot)));
    assert_eq!(extract_tag("a.en.srt", 4), Some((1, "en", Delimiter::Dot)));
    assert_eq!(extract_tag("a.en.srt", 8), Some((4, "srt", Delimiter::Dot)));
    assert_eq!(extract_tag("a.en.srt", 1), None);
    assert_eq!(extract_tag("a.en.srt", 0), None);
    assert_eq!(extract_tag("a.", 2), Some((1, "", Delimiter::Dot)));
    assert_eq!(extract_tag("abc", 3), None);
    assert_eq!(extract_tag("", 0), None);
}

#[test]
fn extract_tag_strips_the_closing_bracket() {
    assert_eq!(extract_tag("a[en]", 5), Some((1, "en", Delimiter::Bracket)));
    assert_eq!(extract_tag("a(en)", 5), Some((1, "en", Delimiter::Paren)));
    assert_eq!(extract_tag("a[]", 3), Some((1, "", Delimiter::Bracket)));
    assert_eq!(extract_tag("a[en", 4), None);
    assert_eq!(extract_tag("a(en", 4), None);
    assert_eq!(extract_tag("a[en)", 5), None);
    assert_eq!(extract_tag("a(en]", 5), None);
    assert_eq!(extract_tag("a[", 2), None);
    assert_eq!(extract_tag("a.en]", 5), Some((1, "en]", Delimiter::Dot)));
}

#[test]
fn classify_flag_words() {
    assert_eq!(classify_flag("hi"), Some(track_flags::HEARING_IMPAIRED));
    assert_eq!(classify_flag("sdh"), Some(track_flags::HEARING_IMPAIRED));
    assert_eq!(classify_flag("cc"), Some(track_flags::HEARING_IMPAIRED));
    assert_eq!(classify_flag("forced"), Some(track_flags::FORCED));
    assert_eq!(classify_flag("default"), Some(track_flags::DEFAULT));
    assert_eq!(classify_flag("Hi"), None);
    assert_eq!(classify_flag("en"), None);
    assert_eq!(classify_flag(""), None);
    assert_eq!(classify_flag("force"), None);
    assert_eq!(classify_flag("forced "), None);
}

#[test]
fn known_languages() {
    assert!(is_known_language("en"));
    assert!(is_known_language("EN"));
    assert!(is_known_language("eng"));
    assert!(is_known_language("pt-BR"));
    assert!(is_known_language("iw"));
    assert!(is_known_language("zh-cmn"));
    assert!(!is_known_language("xx"));
    assert!(!is_known_language("movie"));
    assert!(!is_known_language(""));
    assert!(!is_known_language("1080p"));
    assert!(!is_known_language("x-private"));
}

#[test]
fn guess_reports_the_tag_from_its_delimiter() {
    let name = String::from("movie.en.hi.mp4");
    let report = mp_guess_lang_from_filename(Bstr::new(&name));
    assert_eq!(report.tag.as_str(), "en");
    assert_eq!(report.start, 5);
    assert_eq!(report.flags, track_flags::HEARING_IMPAIRED);
    assert_eq!(report.tag.as_str().as_ptr() as usize, name.as_ptr() as usize + 6);
}

#[test]
fn guess_reports_minus_one_without_tag() {
    let report = mp_guess_lang_from_filename(Bstr::new("movie.forced.mp4"));
    assert_eq!(report.tag.as_str(), "");
    assert_eq!(report.tag.len(), 0);
    assert_eq!(report.start, -1);
    assert_eq!(report.flags, track_flags::FORCED);
    let report = mp_guess_lang_from_filename(Bstr::new(""));
    assert_eq!(report.tag.len(), 0);
    assert_eq!(report.start, -1);
    assert_eq!(report.flags, track_flags::NONE);
}

#[test]
fn guess_tag_in_brackets() {
    let report = mp_guess_lang_from_filename(Bstr::new("movie[pt-BR].default.srt"));
    assert_eq!(report.tag.as_str(), "pt-BR");
    assert_eq!(report.start, 5);
    assert_eq!(report.flags, track_flags::DEFAULT);
}

#[test]
fn splice_tag_cuts_behind_the_delimiter() {
    let name = Bstr::new("movie.en.mp4");
    let report = splice_tag(&name, Some((5, "en", Delimiter::Dot)), track_flags::FORCED);
    assert_eq!(report.tag.as_str(), "en");
    assert_eq!(report.start, 5);
    assert_eq!(report.flags, track_flags::FORCED);
    let report = splice_tag(&name, None, track_flags::DEFAULT);
    assert_eq!(report.tag.as_str(), "");
    assert_eq!(report.start, -1);
    assert_eq!(report.flags, track_flags::DEFAULT);
}

#[test]
fn bstr_views() {
    let text = String::from("h\u{e9}llo.en");
    let view = Bstr::new(&text);
    assert_eq!(view.len(), 9);
    assert_eq!(view.as_str(), "h\u{e9}llo.en");
    assert_eq!(view.splice(0, 9).as_str(), "h\u{e9}llo.en");
    assert_eq!(view.splice(7, 9).as_str(), "en");
    assert_eq!(view.splice(1, 3).as_str(), "\u{e9}");
    assert_eq!(view.splice(4, 4).as_str(), "");
    assert_eq!(view.splice(7, 9).as_str().as_ptr() as usize, text.as_ptr() as usize + 7);
    assert_eq!(Bstr::empty().len(), 0);
    assert_eq!(Bstr::empty().as_str(), "");
}

#[test]
fn byte_and_text_equality() {
    assert!(bytes_equal(b"", b""));
    assert!(bytes_equal(b"abc", b"abc"));
    assert!(!bytes_equal(b"abc", b"abd"));
    assert!(!bytes_equal(b"abc", b"ab"));
    assert!(!bytes_equal(b"ab", b"abc"));
    assert!(str_equal("en-US", "en-US"));
    assert!(!str_equal("en-US", "en-us"));
    assert!(!str_equal("", "e"));
}
