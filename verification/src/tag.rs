//! Language tags: the plain data that matching reads from a tag, and the
//! calls into the `language_tags` crate that produce it.

use language_tags::LanguageTag;
use vstd::prelude::*;

verus! {

#[verifier::external_type_specification]
#[verifier::external_body]
pub struct ExLanguageTag(language_tags::LanguageTag);

/// What a language tag is made of.
pub struct TagView {
    /// The whole tag as it is written.
    pub text: Seq<char>,
    /// The primary language subtag.
    pub language: Seq<char>,
    /// The extended language subtags, if any.
    pub extlang: Option<Seq<char>>,
    /// The script subtag, if any.
    pub script: Option<Seq<char>>,
    /// The region subtag, if any.
    pub region: Option<Seq<char>>,
    /// The variant subtags, in the order in which the tag lists them.
    pub variants: Seq<Seq<char>>,
    /// The extensions, each a singleton with what it introduces, in the
    /// order in which the tag lists them.
    pub extensions: Seq<(char, Seq<char>)>,
    /// The private-use part, if any.
    pub private_use: Option<Seq<char>>,
}

/// An optional part of a tag that holds at most one value.
#[derive(Clone, Copy, Debug, PartialEq, Eq, Structural)]
pub enum Field {
    /// The region subtag.
    Region,
    /// The script subtag.
    Script,
    /// The extended language subtags.
    ExtendedLanguage,
    /// The private-use part.
    PrivateUse,
}

impl TagView {
    /// The value of the part `field`, if the tag has that part.
    pub open spec fn field(self, field: Field) -> Option<Seq<char>> {
        match field {
            Field::Region => self.region,
            Field::Script => self.script,
            Field::ExtendedLanguage => self.extlang,
            Field::PrivateUse => self.private_use,
        }
    }
}

/// The tag that `LanguageTag::parse` reads from `text`, or `None` where it
/// rejects the text as not well-formed.
pub uninterp spec fn parsed_tag(text: Seq<char>) -> Option<TagView>;

/// The canonical form that `LanguageTag::canonicalize` gives for `tag`, or
/// `None` where it finds no single canonical form.
pub uninterp spec fn canonical_tag(tag: TagView) -> Option<TagView>;

/// The canonical form of `tag`, or `tag` itself where it has none.
pub open spec fn canonical_or_same(tag: TagView) -> TagView {
    match canonical_tag(tag) {
        Some(canonical) => canonical,
        None => tag,
    }
}

/// A well-formed language tag. It is made by [`LangTag::parse`] or
/// [`LangTag::canonicalize`] only, so its parts always are those of the tag
/// it holds.
#[derive(Debug)]
pub struct LangTag {
    inner: LanguageTag,
    text: String,
    language: String,
    extlang: Option<String>,
    script: Option<String>,
    region: Option<String>,
    variants: Vec<String>,
    extensions: Vec<(char, String)>,
    private_use: Option<String>,
}

impl View for LangTag {
    type V = TagView;

    closed spec fn view(&self) -> TagView {
        TagView {
            text: self.text@,
            language: self.language@,
            extlang: self.extlang.deep_view(),
            script: self.script.deep_view(),
            region: self.region.deep_view(),
            variants: self.variants.deep_view(),
            extensions: self.extensions.deep_view(),
            private_use: self.private_use.deep_view(),
        }
    }
}

/// Calls `LanguageTag::parse` and copies the parts of the tag it returns,
/// as the tag's accessors `as_str`, `primary_language`,
/// `extended_language`, `script`, `region`, `variant_subtags`,
/// `extension_subtags` and `private_use` give them. Trusted: the result is
/// the tag that the parser reads from `text`, which depends on `text`
/// alone; `None` stands for each of the parser's errors.
#[verifier::external_body]
fn parse_outside(text: &str) -> (tag: Option<LangTag>)
    ensures
        match tag {
            Some(tag) => parsed_tag(text@) == Some(tag@),
            None => parsed_tag(text@) is None,
        },
{
    let t = LanguageTag::parse(text).ok()?;
    Some(LangTag {
        text: t.as_str().to_owned(),
        language: t.primary_language().to_owned(),
        extlang: t.extended_language().map(str::to_owned),
        script: t.script().map(str::to_owned),
        region: t.region().map(str::to_owned),
        variants: t.variant_subtags().map(str::to_owned).collect(),
        extensions: t.extension_subtags().map(|(k, v)| (k, v.to_owned())).collect(),
        private_use: t.private_use().map(str::to_owned),
        inner: t,
    })
}

/// Calls `LanguageTag::canonicalize` on the tag that `tag` holds and copies
/// the parts of the tag it returns, as the same accessors give them.
/// Trusted: the result is the canonical form of that tag, which depends on
/// the tag alone, and the tag on its parts: its text, and the lengths of
/// the parts, which say where in the text each of them ends. `None` stands
/// for each of the errors of the canonicalization.
#[verifier::external_body]
fn canonicalize_outside(tag: &LangTag) -> (canonical: Option<LangTag>)
    ensures
        match canonical {
            Some(canonical) => canonical_tag(tag@) == Some(canonical@),
            None => canonical_tag(tag@) is None,
        },
{
    let t = tag.inner.canonicalize().ok()?;
    Some(LangTag {
        text: t.as_str().to_owned(),
        language: t.primary_language().to_owned(),
        extlang: t.extended_language().map(str::to_owned),
        script: t.script().map(str::to_owned),
        region: t.region().map(str::to_owned),
        variants: t.variant_subtags().map(str::to_owned).collect(),
        extensions: t.extension_subtags().map(|(k, v)| (k, v.to_owned())).collect(),
        private_use: t.private_use().map(str::to_owned),
        inner: t,
    })
}

/// Whether two optional strings hold the same text, or both none.
pub fn same_optional(a: &Option<String>, b: &Option<String>) -> (same: bool)
    ensures
        same == (a.deep_view() == b.deep_view()),
{
    match (a, b) {
        (Some(x), Some(y)) => *x == *y,
        (None, None) => true,
        _ => false,
    }
}

/// Whether two lists of subtags hold the same subtags in the same order.
pub fn same_subtags(a: &Vec<String>, b: &Vec<String>) -> (same: bool)
    ensures
        same == (a.deep_view() == b.deep_view()),
{
    assert(a.deep_view().len() == a@.len() && b.deep_view().len() == b@.len());
    if a.len() != b.len() {
        return false;
    }
    let mut i: usize = 0;
    while i < a.len()
        invariant
            a@.len() == b@.len(),
            0 <= i <= a@.len(),
            forall|k: int| 0 <= k < i ==> a@[k]@ == b@[k]@,
        decreases a@.len() - i,
    {
        if a[i] != b[i] {
            assert(a.deep_view()[i as int] != b.deep_view()[i as int]);
            return false;
        }
        i += 1;
    }
    assert(a.deep_view() =~= b.deep_view());
    true
}

/// Whether two lists of extensions hold the same extensions in the same
/// order.
pub fn same_extensions(a: &Vec<(char, String)>, b: &Vec<(char, String)>) -> (same: bool)
    ensures
        same == (a.deep_view() == b.deep_view()),
{
    assert(a.deep_view().len() == a@.len() && b.deep_view().len() == b@.len());
    if a.len() != b.len() {
        return false;
    }
    let mut i: usize = 0;
    while i < a.len()
        invariant
            a@.len() == b@.len(),
            0 <= i <= a@.len(),
            forall|k: int| 0 <= k < i ==> a@[k].0 == b@[k].0 && a@[k].1@ == b@[k].1@,
        decreases a@.len() - i,
    {
        if a[i].0 != b[i].0 || a[i].1 != b[i].1 {
            assert(a.deep_view()[i as int] != b.deep_view()[i as int]);
            return false;
        }
        i += 1;
    }
    assert(a.deep_view() =~= b.deep_view());
    true
}

impl LangTag {
    /// Reads a tag from `text`. Fails where the text is not a well-formed
    /// tag.
    pub fn parse(text: &str) -> (tag: Option<LangTag>)
        ensures
            match tag {
                Some(tag) => parsed_tag(text@) == Some(tag@),
                None => parsed_tag(text@) is None,
            },
    {
        parse_outside(text)
    }

    /// The canonical form of the tag. Fails where the tag has no single
    /// canonical form.
    pub fn canonicalize(&self) -> (canonical: Option<LangTag>)
        ensures
            match canonical {
                Some(canonical) => canonical_tag(self@) == Some(canonical@),
                None => canonical_tag(self@) is None,
            },
    {
        canonicalize_outside(self)
    }

    /// The whole tag as it is written.
    pub fn as_str(&self) -> (text: &str)
        ensures
            text@ == self@.text,
    {
        self.text.as_str()
    }

    /// The primary language subtag.
    pub fn primary_language(&self) -> (language: &str)
        ensures
            language@ == self@.language,
    {
        self.language.as_str()
    }

    /// The extended language subtags, if any.
    pub fn extended_language(&self) -> (extlang: &Option<String>)
        ensures
            extlang.deep_view() == self@.extlang,
    {
        &self.extlang
    }

    /// The script subtag, if any.
    pub fn script(&self) -> (script: &Option<String>)
        ensures
            script.deep_view() == self@.script,
    {
        &self.script
    }

    /// The region subtag, if any.
    pub fn region(&self) -> (region: &Option<String>)
        ensures
            region.deep_view() == self@.region,
    {
        &self.region
    }

    /// The variant subtags, in the order in which the tag lists them.
    pub fn variant_subtags(&self) -> (variants: &Vec<String>)
        ensures
            variants.deep_view() == self@.variants,
    {
        &self.variants
    }

    /// The extensions, in the order in which the tag lists them.
    pub fn extension_subtags(&self) -> (extensions: &Vec<(char, String)>)
        ensures
            extensions.deep_view() == self@.extensions,
    {
        &self.extensions
    }

    /// The private-use part, if any.
    pub fn private_use(&self) -> (private_use: &Option<String>)
        ensures
            private_use.deep_view() == self@.private_use,
    {
        &self.private_use
    }

    /// The value of the part `field`, if the tag has that part.
    pub fn field(&self, field: Field) -> (value: &Option<String>)
        ensures
            value.deep_view() == self@.field(field),
    {
        match field {
            Field::Region => &self.region,
            Field::Script => &self.script,
            Field::ExtendedLanguage => &self.extlang,
            Field::PrivateUse => &self.private_use,
        }
    }

    /// Whether two tags are the same in every part.
    pub fn same(&self, other: &LangTag) -> (same: bool)
        ensures
            same == (self@ == other@),
    {
        self.text == other.text && self.language == other.language && same_optional(
            &self.extlang,
            &other.extlang,
        ) && same_optional(&self.script, &other.script) && same_optional(
            &self.region,
            &other.region,
        ) && same_subtags(&self.variants, &other.variants) && same_extensions(
            &self.extensions,
            &other.extensions,
        ) && same_optional(&self.private_use, &other.private_use)
    }
}

} // verus!
