use langmatch::iso639::resolve_iso639;
use langmatch::tag::{same_extensions, same_optional, same_subtags, LangTag};

#[test]
fn parse_normalizes_case() {
    let t = LangTag::parse("en-us").unwrap();
    assert_eq!(t.as_str(), "en-US");
    assert_eq!(t.primary_language(), "en");
    assert_eq!(t.region(), &Some("US".to_string()));
    assert_eq!(t.script(), &None);
    assert_eq!(t.extended_language(), &None);
    assert_eq!(t.private_use(), &None);
    assert!(t.variant_subtags().is_empty());
    assert!(t.extension_subtags().is_empty());
}

#[test]
fn parse_reads_every_part() {
    let t = LangTag::parse("ZH-CMN-hans-cn-PINYIN-u-CO-phonebk-t-abc-x-Foo-Bar").unwrap();
    assert_eq!(t.as_str(), "zh-cmn-Hans-CN-pinyin-u-co-phonebk-t-abc-x-foo-bar");
    assert_eq!(t.primary_language(), "zh");
    assert_eq!(t.extended_language(), &Some("cmn".to_string()));
    assert_eq!(t.script(), &Some("Hans".to_string()));
    assert_eq!(t.region(), &Some("CN".to_string()));
    assert_eq!(t.variant_subtags(), &vec!["pinyin".to_string()]);
    assert_eq!(
        t.extension_subtags(),
        &vec![('u', "co-phonebk".to_string()), ('t', "abc".to_string())]
    );
    assert_eq!(t.private_use(), &Some("x-foo-bar".to_string()));
}

#[test]
fn parse_rejects_what_is_not_well_formed() {
    assert!(LangTag::parse("").is_none());
    assert!(LangTag::parse("e").is_none());
    assert!(LangTag::parse("en-").is_none());
    assert!(LangTag::parse("en_US").is_none());
    assert!(LangTag::parse("not a tag!").is_none());
    assert!(LangTag::parse("x-").is_none());
    assert!(LangTag::parse("en-toolongsubtag").is_none());
}

#[test]
fn parse_accepts_tags_outside_the_registry() {
    let t = LangTag::parse("movie").unwrap();
    assert_eq!(t.primary_language(), "movie");
}

#[test]
fn canonicalize_drops_the_default_script() {
    let t = LangTag::parse("en-Latn").unwrap();
    let c = t.canonicalize().unwrap();
    assert_eq!(c.as_str(), "en");
    assert_eq!(c.script(), &None);
    assert!(!c.same(&t));
}

#[test]
fn canonicalize_replaces_deprecated_subtags() {
    let c = LangTag::parse("iw").unwrap().canonicalize().unwrap();
    assert_eq!(c.primary_language(), "he");
    let c = LangTag::parse("zh-cmn-Hans-CN").unwrap().canonicalize().unwrap();
    assert_eq!(c.as_str(), "cmn-Hans-CN");
    assert_eq!(c.primary_language(), "cmn");
    assert_eq!(c.extended_language(), &None);
}

#[test]
fn canonicalize_keeps_a_canonical_tag() {
    let t = LangTag::parse("en-US").unwrap();
    let c = t.canonicalize().unwrap();
    assert!(c.same(&t));
}

#[test]
fn canonicalize_fails_on_several_extended_languages() {
    let t = LangTag::parse("zh-aaa-bbb").unwrap();
    assert_eq!(t.extended_language(), &Some("aaa-bbb".to_string()));
    assert!(t.canonicalize().is_none());
}

#[test]
fn same_tests_every_part() {
    let a = LangTag::parse("en-US").unwrap();
    let b = LangTag::parse("EN-us").unwrap();
    assert!(a.same(&b));
    for other in ["en", "en-GB", "en-Latn-US", "en-US-x-a", "en-US-u-co-phonebk", "en-US-boont", "de-US"] {
        assert!(!a.same(&LangTag::parse(other).unwrap()), "{}", other);
    }
}

#[test]
fn same_helpers() {
    let s = |t: &str| Some(t.to_string());
    assert!(same_optional(&None, &None));
    assert!(same_optional(&s("a"), &s("a")));
    assert!(!same_optional(&s("a"), &s("b")));
    assert!(!same_optional(&s("a"), &None));
    assert!(!same_optional(&None, &s("a")));
    let v = |items: &[&str]| items.iter().map(|t| t.to_string()).collect::<Vec<String>>();
    assert!(same_subtags(&v(&[]), &v(&[])));
    assert!(same_subtags(&v(&["a", "b"]), &v(&["a", "b"])));
    assert!(!same_subtags(&v(&["a", "b"]), &v(&["b", "a"])));
    assert!(!same_subtags(&v(&["a"]), &v(&["a", "b"])));
    let e = |items: &[(char, &str)]| {
        items.iter().map(|(c, t)| (*c, t.to_string())).collect::<Vec<(char, String)>>()
    };
    assert!(same_extensions(&e(&[('u', "co")]), &e(&[('u', "co")])));
    assert!(!same_extensions(&e(&[('u', "co")]), &e(&[('t', "co")])));
    assert!(!same_extensions(&e(&[('u', "co")]), &e(&[('u', "nu")])));
    assert!(!same_extensions(&e(&[('u', "co")]), &e(&[])));
}

#[test]
fn iso639_knows_two_and_three_letter_codes() {
    assert!(resolve_iso639("en").is_some());
    assert!(resolve_iso639("eng").is_some());
    assert_eq!(resolve_iso639("en"), resolve_iso639("eng"));
    assert_eq!(resolve_iso639("de"), resolve_iso639("deu"));
    assert_ne!(resolve_iso639("en"), resolve_iso639("fr"));
}

#[test]
fn iso639_rejects_what_is_no_code() {
    assert!(resolve_iso639("").is_none());
    assert!(resolve_iso639("xx").is_none());
    assert!(resolve_iso639("movie").is_none());
    assert!(resolve_iso639("EN").is_none());
    assert!(resolve_iso639("English").is_none());
}
