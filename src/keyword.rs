//! The fixed vocabulary of directives.
use vstd::prelude::*;

use crate::chars::same_chars;

verus! {

/// One directive of the language, named after its spelling.
#[derive(Clone, Copy, Debug, PartialEq, Eq, Structural)]
pub enum Keyword {
    Hai,
    Kthxbye,
    Obtw,
    Tldr,
    MaekHead,
    MaekParagraf,
    MaekList,
    GimmehItalics,
    GimmehTitle,
    GimmehItem,
    GimmehNewline,
    GimmehSoundz,
    GimmehVidz,
    GimmehBold,
    Mkay,
    Oic,
    IHaz,
    ItIz,
    LemmeSee,
}

/// The directive whose lowercase spelling is `s`, if any.
pub open spec fn keyword_of(s: Seq<char>) -> Option<Keyword> {
    if s == "#hai"@ {
        Some(Keyword::Hai)
    } else if s == "#kthxbye"@ {
        Some(Keyword::Kthxbye)
    } else if s == "#obtw"@ {
        Some(Keyword::Obtw)
    } else if s == "#tldr"@ {
        Some(Keyword::Tldr)
    } else if s == "#maek head"@ {
        Some(Keyword::MaekHead)
    } else if s == "#maek paragraf"@ {
        Some(Keyword::MaekParagraf)
    } else if s == "#maek list"@ {
        Some(Keyword::MaekList)
    } else if s == "#gimmeh italics"@ {
        Some(Keyword::GimmehItalics)
    } else if s == "#gimmeh title"@ {
        Some(Keyword::GimmehTitle)
    } else if s == "#gimmeh item"@ {
        Some(Keyword::GimmehItem)
    } else if s == "#gimmeh newline"@ {
        Some(Keyword::GimmehNewline)
    } else if s == "#gimmeh soundz"@ {
        Some(Keyword::GimmehSoundz)
    } else if s == "#gimmeh vidz"@ {
        Some(Keyword::GimmehVidz)
    } else if s == "#gimmeh bold"@ {
        Some(Keyword::GimmehBold)
    } else if s == "#mkay"@ {
        Some(Keyword::Mkay)
    } else if s == "#oic"@ {
        Some(Keyword::Oic)
    } else if s == "#i haz"@ {
        Some(Keyword::IHaz)
    } else if s == "#it iz"@ {
        Some(Keyword::ItIz)
    } else if s == "#lemme see"@ {
        Some(Keyword::LemmeSee)
    } else {
        None
    }
}

/// Whether the lowercase word `s` opens a two-word directive.
pub open spec fn is_prefix_word(s: Seq<char>) -> bool {
    s == "#maek"@ || s == "#gimmeh"@ || s == "#i"@ || s == "#it"@ || s == "#lemme"@
}

impl Keyword {
    /// The directive as it is written, in uppercase.
    pub fn spelling(&self) -> (r: &'static str) {
        match self {
            Keyword::Hai => "#HAI",
            Keyword::Kthxbye => "#KTHXBYE",
            Keyword::Obtw => "#OBTW",
            Keyword::Tldr => "#TLDR",
            Keyword::MaekHead => "#MAEK HEAD",
            Keyword::MaekParagraf => "#MAEK PARAGRAF",
            Keyword::MaekList => "#MAEK LIST",
            Keyword::GimmehItalics => "#GIMMEH ITALICS",
            Keyword::GimmehTitle => "#GIMMEH TITLE",
            Keyword::GimmehItem => "#GIMMEH ITEM",
            Keyword::GimmehNewline => "#GIMMEH NEWLINE",
            Keyword::GimmehSoundz => "#GIMMEH SOUNDZ",
            Keyword::GimmehVidz => "#GIMMEH VIDZ",
            Keyword::GimmehBold => "#GIMMEH BOLD",
            Keyword::Mkay => "#MKAY",
            Keyword::Oic => "#OIC",
            Keyword::IHaz => "#I HAZ",
            Keyword::ItIz => "#IT IZ",
            Keyword::LemmeSee => "#LEMME SEE",
        }
    }
}

/// Looks up a lowercase directive spelling in the vocabulary.
pub fn lookup(lower: &Vec<char>) -> (r: Option<Keyword>)
    ensures
        r == keyword_of(lower@),
{
    if same_chars(lower, "#hai") {
        Some(Keyword::Hai)
    } else if same_chars(lower, "#kthxbye") {
        Some(Keyword::Kthxbye)
    } else if same_chars(lower, "#obtw") {
        Some(Keyword::Obtw)
    } else if same_chars(lower, "#tldr") {
        Some(Keyword::Tldr)
    } else if same_chars(lower, "#maek head") {
        Some(Keyword::MaekHead)
    } else if same_chars(lower, "#maek paragraf") {
        Some(Keyword::MaekParagraf)
    } else if same_chars(lower, "#maek list") {
        Some(Keyword::MaekList)
    } else if same_chars(lower, "#gimmeh italics") {
        Some(Keyword::GimmehItalics)
    } else if same_chars(lower, "#gimmeh title") {
        Some(Keyword::GimmehTitle)
    } else if same_chars(lower, "#gimmeh item") {
        Some(Keyword::GimmehItem)
    } else if same_chars(lower, "#gimmeh newline") {
        Some(Keyword::GimmehNewline)
    } else if same_chars(lower, "#gimmeh soundz") {
        Some(Keyword::GimmehSoundz)
    } else if same_chars(lower, "#gimmeh vidz") {
        Some(Keyword::GimmehVidz)
    } else if same_chars(lower, "#gimmeh bold") {
        Some(Keyword::GimmehBold)
    } else if same_chars(lower, "#mkay") {
        Some(Keyword::Mkay)
    } else if same_chars(lower, "#oic") {
        Some(Keyword::Oic)
    } else if same_chars(lower, "#i haz") {
        Some(Keyword::IHaz)
    } else if same_chars(lower, "#it iz") {
        Some(Keyword::ItIz)
    } else if same_chars(lower, "#lemme see") {
        Some(Keyword::LemmeSee)
    } else {
        None
    }
}

/// Whether a lowercase word opens a two-word directive.
pub fn prefix_word(lower: &Vec<char>) -> (r: bool)
    ensures
        r == is_prefix_word(lower@),
{
    same_chars(lower, "#maek") || same_chars(lower, "#gimmeh") || same_chars(lower, "#i")
        || same_chars(lower, "#it") || same_chars(lower, "#lemme")
}

} // verus!
