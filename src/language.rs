use vstd::prelude::*;

verus! {

/// Declares lingua's language enum with its variants visible, so that verified
/// code can map between it and [`LanguageTag`].
#[verifier::external_type_specification]
pub struct ExEngineLanguage(lingua::Language);

/// The closed set of languages this library can report. The declaration order
/// is the fixed order used to break ties between equal confidences.
#[derive(Clone, Copy, Debug, PartialEq, Eq, Structural, Hash)]
pub enum LanguageTag {
    English,
    Spanish,
    French,
    German,
    Italian,
    Portuguese,
    Russian,
    Japanese,
    Korean,
    Chinese,
    Indonesian,
    Malay,
    Thai,
    Vietnamese,
    Tagalog,
}

/// The number of languages in [`LanguageTag`].
pub const LANGUAGE_COUNT: usize = 15;

impl LanguageTag {
    /// Position of the language in the declaration order.
    pub open spec fn rank_index(self) -> nat {
        match self {
            LanguageTag::English => 0,
            LanguageTag::Spanish => 1,
            LanguageTag::French => 2,
            LanguageTag::German => 3,
            LanguageTag::Italian => 4,
            LanguageTag::Portuguese => 5,
            LanguageTag::Russian => 6,
            LanguageTag::Japanese => 7,
            LanguageTag::Korean => 8,
            LanguageTag::Chinese => 9,
            LanguageTag::Indonesian => 10,
            LanguageTag::Malay => 11,
            LanguageTag::Thai => 12,
            LanguageTag::Vietnamese => 13,
            LanguageTag::Tagalog => 14,
        }
    }

    /// The identifier under which the language is reported.
    pub open spec fn tag_text(self) -> Seq<char> {
        match self {
            LanguageTag::English => "ENGLISH"@,
            LanguageTag::Spanish => "SPANISH"@,
            LanguageTag::French => "FRENCH"@,
            LanguageTag::German => "GERMAN"@,
            LanguageTag::Italian => "ITALIAN"@,
            LanguageTag::Portuguese => "PORTUGUESE"@,
            LanguageTag::Russian => "RUSSIAN"@,
            LanguageTag::Japanese => "JAPANESE"@,
            LanguageTag::Korean => "KOREAN"@,
            LanguageTag::Chinese => "CHINESE"@,
            LanguageTag::Indonesian => "INDONESIAN"@,
            LanguageTag::Malay => "MALAY"@,
            LanguageTag::Thai => "THAI"@,
            LanguageTag::Vietnamese => "VIETNAMESE"@,
            LanguageTag::Tagalog => "TAGALOG"@,
        }
    }

    /// The engine's language of the same name.
    pub open spec fn engine_spec(self) -> lingua::Language {
        match self {
            LanguageTag::English => lingua::Language::English,
            LanguageTag::Spanish => lingua::Language::Spanish,
            LanguageTag::French => lingua::Language::French,
            LanguageTag::German => lingua::Language::German,
            LanguageTag::Italian => lingua::Language::Italian,
            LanguageTag::Portuguese => lingua::Language::Portuguese,
            LanguageTag::Russian => lingua::Language::Russian,
            LanguageTag::Japanese => lingua::Language::Japanese,
            LanguageTag::Korean => lingua::Language::Korean,
            LanguageTag::Chinese => lingua::Language::Chinese,
            LanguageTag::Indonesian => lingua::Language::Indonesian,
            LanguageTag::Malay => lingua::Language::Malay,
            LanguageTag::Thai => lingua::Language::Thai,
            LanguageTag::Vietnamese => lingua::Language::Vietnamese,
            LanguageTag::Tagalog => lingua::Language::Tagalog,
        }
    }

    /// Position of the language in the declaration order.
    pub fn index(self) -> (r: usize)
        ensures
            r as nat == self.rank_index(),
            r < LANGUAGE_COUNT,
    {
        match self {
            LanguageTag::English => 0,
            LanguageTag::Spanish => 1,
            LanguageTag::French => 2,
            LanguageTag::German => 3,
            LanguageTag::Italian => 4,
            LanguageTag::Portuguese => 5,
            LanguageTag::Russian => 6,
            LanguageTag::Japanese => 7,
            LanguageTag::Korean => 8,
            LanguageTag::Chinese => 9,
            LanguageTag::Indonesian => 10,
            LanguageTag::Malay => 11,
            LanguageTag::Thai => 12,
            LanguageTag::Vietnamese => 13,
            LanguageTag::Tagalog => 14,
        }
    }

    /// The identifier under which the language is reported, e.g. `ENGLISH`.
    pub fn tag(self) -> (r: String)
        ensures
            r@ == self.tag_text(),
    {
        let s: &str = match self {
            LanguageTag::English => "ENGLISH",
            LanguageTag::Spanish => "SPANISH",
            LanguageTag::French => "FRENCH",
            LanguageTag::German => "GERMAN",
            LanguageTag::Italian => "ITALIAN",
            LanguageTag::Portuguese => "PORTUGUESE",
            LanguageTag::Russian => "RUSSIAN",
            LanguageTag::Japanese => "JAPANESE",
            LanguageTag::Korean => "KOREAN",
            LanguageTag::Chinese => "CHINESE",
            LanguageTag::Indonesian => "INDONESIAN",
            LanguageTag::Malay => "MALAY",
            LanguageTag::Thai => "THAI",
            LanguageTag::Vietnamese => "VIETNAMESE",
            LanguageTag::Tagalog => "TAGALOG",
        };
        String::from_str(s)
    }

    /// The engine's language of the same name.
    pub fn to_engine(self) -> (r: lingua::Language)
        ensures
            r == self.engine_spec(),
    {
        match self {
            LanguageTag::English => lingua::Language::English,
            LanguageTag::Spanish => lingua::Language::Spanish,
            LanguageTag::French => lingua::Language::French,
            LanguageTag::German => lingua::Language::German,
            LanguageTag::Italian => lingua::Language::Italian,
            LanguageTag::Portuguese => lingua::Language::Portuguese,
            LanguageTag::Russian => lingua::Language::Russian,
            LanguageTag::Japanese => lingua::Language::Japanese,
            LanguageTag::Korean => lingua::Language::Korean,
            LanguageTag::Chinese => lingua::Language::Chinese,
            LanguageTag::Indonesian => lingua::Language::Indonesian,
            LanguageTag::Malay => lingua::Language::Malay,
            LanguageTag::Thai => lingua::Language::Thai,
            LanguageTag::Vietnamese => lingua::Language::Vietnamese,
            LanguageTag::Tagalog => lingua::Language::Tagalog,
        }
    }

    /// The language of the same name as one of the engine's.
    pub fn from_engine(l: lingua::Language) -> (r: LanguageTag)
        ensures
            r.engine_spec() == l,
    {
        match l {
            lingua::Language::English => LanguageTag::English,
            lingua::Language::Spanish => LanguageTag::Spanish,
            lingua::Language::French => LanguageTag::French,
            lingua::Language::German => LanguageTag::German,
            lingua::Language::Italian => LanguageTag::Italian,
            lingua::Language::Portuguese => LanguageTag::Portuguese,
            lingua::Language::Russian => LanguageTag::Russian,
            lingua::Language::Japanese => LanguageTag::Japanese,
            lingua::Language::Korean => LanguageTag::Korean,
            lingua::Language::Chinese => LanguageTag::Chinese,
            lingua::Language::Indonesian => LanguageTag::Indonesian,
            lingua::Language::Malay => LanguageTag::Malay,
            lingua::Language::Thai => LanguageTag::Thai,
            lingua::Language::Vietnamese => LanguageTag::Vietnamese,
            lingua::Language::Tagalog => LanguageTag::Tagalog,
        }
    }
}

/// Distinct languages have distinct positions and distinct engine counterparts.
pub proof fn lemma_language_injective(a: LanguageTag, b: LanguageTag)
    ensures
        a.rank_index() == b.rank_index() ==> a == b,
        a.engine_spec() == b.engine_spec() ==> a == b,
{
}

} // verus!
