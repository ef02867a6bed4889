//! The kinds of single characters by which spans outside the dictionary are
//! formed.

use vstd::prelude::*;

verus! {

/// Blanks: space, tab, line feed, vertical tab, and U+00D0.
pub open spec fn is_space(code: u32) -> bool {
    ||| code == 0x0020
    ||| code == 0x00D0
    ||| code == 0x0009
    ||| code == 0x000B
    ||| code == 0x000A
}

fn space(code: u32) -> (found: bool)
    ensures
        found == is_space(code),
{
    code == 0x0020
        || code == 0x00D0
        || code == 0x0009
        || code == 0x000B
        || code == 0x000A
}

/// Ideographs: CJK radicals, Kangxi radicals, the iteration mark and zero, CJK
/// unified ideographs with extension A, and the compatibility ideographs.
pub open spec fn is_kanji(code: u32) -> bool {
    ||| 0x2E80 <= code <= 0x2EF3
    ||| 0x2F00 <= code <= 0x2FD5
    ||| code == 0x3005
    ||| code == 0x3007
    ||| 0x3400 <= code <= 0x4DB5
    ||| 0x4E00 <= code <= 0x9FA5
    ||| 0xF900 <= code <= 0xFA2D
    ||| 0xFA30 <= code <= 0xFA6A
}

fn kanji(code: u32) -> (found: bool)
    ensures
        found == is_kanji(code),
{
    (0x2E80 <= code && code <= 0x2EF3)
        || (0x2F00 <= code && code <= 0x2FD5)
        || code == 0x3005
        || code == 0x3007
        || (0x3400 <= code && code <= 0x4DB5)
        || (0x4E00 <= code && code <= 0x9FA5)
        || (0xF900 <= code && code <= 0xFA2D)
        || (0xFA30 <= code && code <= 0xFA6A)
}

/// Punctuation and symbols, ASCII and fullwidth, and the symbol blocks from
/// general punctuation to the CJK symbols.
pub open spec fn is_symbol(code: u32) -> bool {
    ||| 0x0021 <= code <= 0x002F
    ||| 0x003A <= code <= 0x0040
    ||| 0x005B <= code <= 0x0060
    ||| 0x007B <= code <= 0x007E
    ||| 0x00A1 <= code <= 0x00BF
    ||| 0xFF01 <= code <= 0xFF0F
    ||| 0xFF1A <= code <= 0xFF1F
    ||| 0xFF3B <= code <= 0xFF40
    ||| 0xFF5B <= code <= 0xFF65
    ||| 0xFFE0 <= code <= 0xFFEF
    ||| 0x2000 <= code <= 0x206F
    ||| 0x20A0 <= code <= 0x20CF
    ||| 0x20D0 <= code <= 0x20FF
    ||| 0x2100 <= code <= 0x214F
    ||| 0x2190 <= code <= 0x21FF
    ||| 0x2200 <= code <= 0x22FF
    ||| 0x2300 <= code <= 0x23FF
    ||| 0x2460 <= code <= 0x24FF
    ||| 0x2501 <= code <= 0x257F
    ||| 0x2580 <= code <= 0x259F
    ||| 0x25A0 <= code <= 0x25FF
    ||| 0x2600 <= code <= 0x26FE
    ||| 0x2700 <= code <= 0x27BF
    ||| 0x27F0 <= code <= 0x27FF
    ||| 0x27C0 <= code <= 0x27EF
    ||| 0x2800 <= code <= 0x28FF
    ||| 0x2900 <= code <= 0x297F
    ||| 0x2B00 <= code <= 0x2BFF
    ||| 0x2A00 <= code <= 0x2AFF
    ||| 0x3300 <= code <= 0x33FF
    ||| 0x3200 <= code <= 0x32FE
    ||| 0x3000 <= code <= 0x303F
    ||| 0xFE30 <= code <= 0xFE4F
    ||| 0xFE50 <= code <= 0xFE6B
}

fn symbol(code: u32) -> (found: bool)
    ensures
        found == is_symbol(code),
{
    (0x0021 <= code && code <= 0x002F)
        || (0x003A <= code && code <= 0x0040)
        || (0x005B <= code && code <= 0x0060)
        || (0x007B <= code && code <= 0x007E)
        || (0x00A1 <= code && code <= 0x00BF)
        || (0xFF01 <= code && code <= 0xFF0F)
        || (0xFF1A <= code && code <= 0xFF1F)
        || (0xFF3B <= code && code <= 0xFF40)
        || (0xFF5B <= code && code <= 0xFF65)
        || (0xFFE0 <= code && code <= 0xFFEF)
        || (0x2000 <= code && code <= 0x206F)
        || (0x20A0 <= code && code <= 0x20CF)
        || (0x20D0 <= code && code <= 0x20FF)
        || (0x2100 <= code && code <= 0x214F)
        || (0x2190 <= code && code <= 0x21FF)
        || (0x2200 <= code && code <= 0x22FF)
        || (0x2300 <= code && code <= 0x23FF)
        || (0x2460 <= code && code <= 0x24FF)
        || (0x2501 <= code && code <= 0x257F)
        || (0x2580 <= code && code <= 0x259F)
        || (0x25A0 <= code && code <= 0x25FF)
        || (0x2600 <= code && code <= 0x26FE)
        || (0x2700 <= code && code <= 0x27BF)
        || (0x27F0 <= code && code <= 0x27FF)
        || (0x27C0 <= code && code <= 0x27EF)
        || (0x2800 <= code && code <= 0x28FF)
        || (0x2900 <= code && code <= 0x297F)
        || (0x2B00 <= code && code <= 0x2BFF)
        || (0x2A00 <= code && code <= 0x2AFF)
        || (0x3300 <= code && code <= 0x33FF)
        || (0x3200 <= code && code <= 0x32FE)
        || (0x3000 <= code && code <= 0x303F)
        || (0xFE30 <= code && code <= 0xFE4F)
        || (0xFE50 <= code && code <= 0xFE6B)
}

/// Digits, ASCII and fullwidth, superscripts and subscripts, number forms.
pub open spec fn is_numeric(code: u32) -> bool {
    ||| 0x0030 <= code <= 0x0039
    ||| 0xFF10 <= code <= 0xFF19
    ||| 0x2070 <= code <= 0x209F
    ||| 0x2150 <= code <= 0x218F
}

fn numeric(code: u32) -> (found: bool)
    ensures
        found == is_numeric(code),
{
    (0x0030 <= code && code <= 0x0039)
        || (0xFF10 <= code && code <= 0xFF19)
        || (0x2070 <= code && code <= 0x209F)
        || (0x2150 <= code && code <= 0x218F)
}

/// Latin letters: basic, Latin-1, extended A and B, extended additional, and
/// fullwidth.
pub open spec fn is_alpha(code: u32) -> bool {
    ||| 0x0041 <= code <= 0x005A
    ||| 0x0061 <= code <= 0x007A
    ||| 0x00C0 <= code <= 0x00FF
    ||| 0x0100 <= code <= 0x017F
    ||| 0x0180 <= code <= 0x0236
    ||| 0x1E00 <= code <= 0x1EF9
    ||| 0xFF21 <= code <= 0xFF3A
    ||| 0xFF41 <= code <= 0xFF5A
}

fn alpha(code: u32) -> (found: bool)
    ensures
        found == is_alpha(code),
{
    (0x0041 <= code && code <= 0x005A)
        || (0x0061 <= code && code <= 0x007A)
        || (0x00C0 <= code && code <= 0x00FF)
        || (0x0100 <= code && code <= 0x017F)
        || (0x0180 <= code && code <= 0x0236)
        || (0x1E00 <= code && code <= 0x1EF9)
        || (0xFF21 <= code && code <= 0xFF3A)
        || (0xFF41 <= code && code <= 0xFF5A)
}

/// The Hiragana block.
pub open spec fn is_hiragana(code: u32) -> bool {
    ||| 0x3041 <= code <= 0x309F
}

fn hiragana(code: u32) -> (found: bool)
    ensures
        found == is_hiragana(code),
{
    (0x3041 <= code && code <= 0x309F)
}

/// Katakana, its phonetic extensions, and halfwidth Katakana.
pub open spec fn is_katakana(code: u32) -> bool {
    ||| 0x30A1 <= code <= 0x30FF
    ||| 0x31F0 <= code <= 0x31FF
    ||| 0xFF66 <= code <= 0xFF9D
    ||| 0xFF9E <= code <= 0xFF9F
}

fn katakana(code: u32) -> (found: bool)
    ensures
        found == is_katakana(code),
{
    (0x30A1 <= code && code <= 0x30FF)
        || (0x31F0 <= code && code <= 0x31FF)
        || (0xFF66 <= code && code <= 0xFF9D)
        || (0xFF9E <= code && code <= 0xFF9F)
}

/// Greek and Coptic letters.
pub open spec fn is_greek(code: u32) -> bool {
    ||| 0x0374 <= code <= 0x03FB
}

fn greek(code: u32) -> (found: bool)
    ensures
        found == is_greek(code),
{
    (0x0374 <= code && code <= 0x03FB)
}

/// Cyrillic letters and the Cyrillic supplement.
pub open spec fn is_cyrillic(code: u32) -> bool {
    ||| 0x0400 <= code <= 0x04F9
    ||| 0x0500 <= code <= 0x050F
}

fn cyrillic(code: u32) -> (found: bool)
    ensures
        found == is_cyrillic(code),
{
    (0x0400 <= code && code <= 0x04F9)
        || (0x0500 <= code && code <= 0x050F)
}

/// The kind of a single character. The kinds are tried in the order in which
/// they stand here.
#[derive(Debug, Clone, Copy, PartialEq, Eq)]
pub enum CharCategory {
    Space,
    Kanji,
    Symbol,
    Numeric,
    Alpha,
    Hiragana,
    Katakana,
    Greek,
    Cyrillic,
}

/// The number of kinds.
pub const CATEGORY_COUNT: usize = 9;

/// The kinds in the order in which they are tried.
pub open spec fn categories() -> Seq<CharCategory> {
    seq![
        CharCategory::Space,
        CharCategory::Kanji,
        CharCategory::Symbol,
        CharCategory::Numeric,
        CharCategory::Alpha,
        CharCategory::Hiragana,
        CharCategory::Katakana,
        CharCategory::Greek,
        CharCategory::Cyrillic,
    ]
}

/// The kind at place `index` of the order.
pub fn category_at(index: usize) -> (category: CharCategory)
    requires
        index < CATEGORY_COUNT,
    ensures
        category == categories()[index as int],
{
    if index == 0 {
        CharCategory::Space
    } else if index == 1 {
        CharCategory::Kanji
    } else if index == 2 {
        CharCategory::Symbol
    } else if index == 3 {
        CharCategory::Numeric
    } else if index == 4 {
        CharCategory::Alpha
    } else if index == 5 {
        CharCategory::Hiragana
    } else if index == 6 {
        CharCategory::Katakana
    } else if index == 7 {
        CharCategory::Greek
    } else {
        CharCategory::Cyrillic
    }
}

impl CharCategory {
    /// The character is of this kind.
    pub open spec fn holds(&self, c: char) -> bool {
        match self {
            CharCategory::Space => is_space(c as u32),
            CharCategory::Kanji => is_kanji(c as u32),
            CharCategory::Symbol => is_symbol(c as u32),
            CharCategory::Numeric => is_numeric(c as u32),
            CharCategory::Alpha => is_alpha(c as u32),
            CharCategory::Hiragana => is_hiragana(c as u32),
            CharCategory::Katakana => is_katakana(c as u32),
            CharCategory::Greek => is_greek(c as u32),
            CharCategory::Cyrillic => is_cyrillic(c as u32),
        }
    }

    /// A span of this kind runs on over the characters of the kind that
    /// follow; without it the span is one character.
    pub open spec fn is_grouped(&self) -> bool {
        !(self is Kanji)
    }

    /// The kind is tried at every position; without it only where no
    /// dictionary term starts.
    pub open spec fn is_invoked(&self) -> bool {
        self is Symbol || self is Numeric || self is Katakana || self is Greek || self is Cyrillic
    }

    /// Whether the character is of this kind.
    #[verifier::when_used_as_spec(holds)]
    pub fn contains(&self, c: char) -> (found: bool)
        ensures
            found == self.holds(c),
    {
        let code = c as u32;
        match self {
            CharCategory::Space => space(code),
            CharCategory::Kanji => kanji(code),
            CharCategory::Symbol => symbol(code),
            CharCategory::Numeric => numeric(code),
            CharCategory::Alpha => alpha(code),
            CharCategory::Hiragana => hiragana(code),
            CharCategory::Katakana => katakana(code),
            CharCategory::Greek => greek(code),
            CharCategory::Cyrillic => cyrillic(code),
        }
    }

    /// Whether a span of this kind runs on over the characters that follow.
    #[verifier::when_used_as_spec(is_grouped)]
    pub fn group(&self) -> (grouped: bool)
        ensures
            grouped == self.is_grouped(),
    {
        match self {
            CharCategory::Kanji => false,
            _ => true,
        }
    }

    /// Whether the kind is tried at every position.
    #[verifier::when_used_as_spec(is_invoked)]
    pub fn invoke(&self) -> (invoked: bool)
        ensures
            invoked == self.is_invoked(),
    {
        match self {
            CharCategory::Symbol
            | CharCategory::Numeric
            | CharCategory::Katakana
            | CharCategory::Greek
            | CharCategory::Cyrillic => true,
            _ => false,
        }
    }
}

} // verus!
