use segmenter::character::{category_at, CharCategory, CATEGORY_COUNT};

fn code(value: u32) -> char {
    char::from_u32(value).unwrap()
}

#[test]
fn kinds_stand_in_their_order() {
    assert_eq!(CATEGORY_COUNT, 9);
    assert_eq!(category_at(0), CharCategory::Space);
    assert_eq!(category_at(1), CharCategory::Kanji);
    assert_eq!(category_at(2), CharCategory::Symbol);
    assert_eq!(category_at(3), CharCategory::Numeric);
    assert_eq!(category_at(4), CharCategory::Alpha);
    assert_eq!(category_at(5), CharCategory::Hiragana);
    assert_eq!(category_at(6), CharCategory::Katakana);
    assert_eq!(category_at(7), CharCategory::Greek);
    assert_eq!(category_at(8), CharCategory::Cyrillic);
}

#[test]
fn only_ideographs_are_not_grouped() {
    for index in 0..CATEGORY_COUNT {
        let category = category_at(index);
        assert_eq!(category.group(), category != CharCategory::Kanji);
    }
}

#[test]
fn five_kinds_are_always_tried() {
    assert!(!CharCategory::Space.invoke());
    assert!(!CharCategory::Kanji.invoke());
    assert!(CharCategory::Symbol.invoke());
    assert!(CharCategory::Numeric.invoke());
    assert!(!CharCategory::Alpha.invoke());
    assert!(!CharCategory::Hiragana.invoke());
    assert!(CharCategory::Katakana.invoke());
    assert!(CharCategory::Greek.invoke());
    assert!(CharCategory::Cyrillic.invoke());
}

#[test]
fn blanks() {
    for c in [' ', '\t', '\n', '\u{000B}', '\u{00D0}'] {
        assert!(CharCategory::Space.contains(c));
    }
    for c in ['\r', '\u{000C}', '\u{3000}', 'a', '\u{00A0}', '\u{00D1}'] {
        assert!(!CharCategory::Space.contains(c));
    }
}

#[test]
fn ideographs() {
    for value in [0x2E80, 0x2EF3, 0x2F00, 0x2FD5, 0x3005, 0x3007, 0x3400, 0x4DB5, 0x4E00, 0x9FA5, 0xF900, 0xFA2D, 0xFA30, 0xFA6A] {
        assert!(CharCategory::Kanji.contains(code(value)));
    }
    for value in [0x2E7F, 0x2EF4, 0x2EFF, 0x2FD6, 0x3004, 0x3006, 0x3008, 0x33FF, 0x4DB6, 0x4DFF, 0x9FA6, 0xF8FF, 0xFA2E, 0xFA2F, 0xFA6B, 0x3042] {
        assert!(!CharCategory::Kanji.contains(code(value)));
    }
    assert!(CharCategory::Kanji.contains('猫'));
}

#[test]
fn symbols() {
    let ranges: [(u32, u32); 34] = [
        (0x0021, 0x002F), (0x003A, 0x0040), (0x005B, 0x0060), (0x007B, 0x007E),
        (0x00A1, 0x00BF), (0xFF01, 0xFF0F), (0xFF1A, 0xFF1F), (0xFF3B, 0xFF40),
        (0xFF5B, 0xFF65), (0xFFE0, 0xFFEF), (0x2000, 0x206F), (0x20A0, 0x20CF),
        (0x20D0, 0x20FF), (0x2100, 0x214F), (0x2190, 0x21FF), (0x2200, 0x22FF),
        (0x2300, 0x23FF), (0x2460, 0x24FF), (0x2501, 0x257F), (0x2580, 0x259F),
        (0x25A0, 0x25FF), (0x2600, 0x26FE), (0x2700, 0x27BF), (0x27F0, 0x27FF),
        (0x27C0, 0x27EF), (0x2800, 0x28FF), (0x2900, 0x297F), (0x2B00, 0x2BFF),
        (0x2A00, 0x2AFF), (0x3300, 0x33FF), (0x3200, 0x32FE), (0x3000, 0x303F),
        (0xFE30, 0xFE4F), (0xFE50, 0xFE6B),
    ];
    for (low, high) in ranges {
        assert!(CharCategory::Symbol.contains(code(low)));
        assert!(CharCategory::Symbol.contains(code(high)));
    }
    for value in [0x0020, 0x0030, 0x0041, 0x005A, 0x0061, 0x007F, 0x00A0, 0x00C0, 0x1FFF, 0x2070, 0x209F, 0x2150, 0x218F, 0x2400, 0x245F, 0x2500, 0x26FF, 0x2980, 0x29FF, 0x2C00, 0x32FF, 0x3040, 0x3400, 0xFE2F, 0xFE6C, 0xFF00, 0xFF10, 0xFF66, 0xFFDF, 0xFFF0] {
        assert!(!CharCategory::Symbol.contains(code(value)), "{:X}", value);
    }
}

#[test]
fn digits() {
    for value in [0x0030, 0x0039, 0xFF10, 0xFF19, 0x2070, 0x209F, 0x2150, 0x218F] {
        assert!(CharCategory::Numeric.contains(code(value)));
    }
    for value in [0x002F, 0x003A, 0xFF0F, 0xFF1A, 0x206F, 0x20A0, 0x214F, 0x2190, 0x0660] {
        assert!(!CharCategory::Numeric.contains(code(value)));
    }
}

#[test]
fn latin_letters() {
    for value in [0x0041, 0x005A, 0x0061, 0x007A, 0x00C0, 0x00FF, 0x0100, 0x017F, 0x0180, 0x0236, 0x1E00, 0x1EF9, 0xFF21, 0xFF3A, 0xFF41, 0xFF5A] {
        assert!(CharCategory::Alpha.contains(code(value)));
    }
    for value in [0x0040, 0x005B, 0x0060, 0x007B, 0x00BF, 0x0237, 0x1DFF, 0x1EFA, 0xFF20, 0xFF3B, 0xFF40, 0xFF5B] {
        assert!(!CharCategory::Alpha.contains(code(value)));
    }
    // U+00D0 is a letter by kind and a blank by kind.
    assert!(CharCategory::Alpha.contains('\u{00D0}'));
}

#[test]
fn kana() {
    for value in [0x3041, 0x3094, 0x309F] {
        assert!(CharCategory::Hiragana.contains(code(value)));
        assert!(!CharCategory::Katakana.contains(code(value)));
    }
    for value in [0x3040, 0x30A0] {
        assert!(!CharCategory::Hiragana.contains(code(value)));
        assert!(!CharCategory::Katakana.contains(code(value)));
    }
    for value in [0x30A1, 0x30FF, 0x31F0, 0x31FF, 0xFF66, 0xFF9D, 0xFF9E, 0xFF9F] {
        assert!(CharCategory::Katakana.contains(code(value)));
        assert!(!CharCategory::Hiragana.contains(code(value)));
    }
    for value in [0x3100, 0x31EF, 0x3200, 0xFF65, 0xFFA0] {
        assert!(!CharCategory::Katakana.contains(code(value)));
    }
}

#[test]
fn greek_and_cyrillic() {
    for value in [0x0374, 0x03B1, 0x03FB] {
        assert!(CharCategory::Greek.contains(code(value)));
        assert!(!CharCategory::Cyrillic.contains(code(value)));
    }
    for value in [0x0373, 0x03FC, 0x03FF] {
        assert!(!CharCategory::Greek.contains(code(value)));
        assert!(!CharCategory::Cyrillic.contains(code(value)));
    }
    for value in [0x0400, 0x0434, 0x04F9, 0x0500, 0x050F] {
        assert!(CharCategory::Cyrillic.contains(code(value)));
        assert!(!CharCategory::Greek.contains(code(value)));
    }
    for value in [0x04FA, 0x04FF, 0x0510] {
        assert!(!CharCategory::Cyrillic.contains(code(value)));
    }
}

#[test]
fn some_code_points_are_of_no_kind() {
    for c in ['\u{0E01}', '\r', '\u{0000}', '\u{10FFFF}', '\u{1F600}', '\u{AC00}'] {
        for index in 0..CATEGORY_COUNT {
            assert!(!category_at(index).contains(c));
        }
    }
}
