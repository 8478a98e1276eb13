use grid2048::font::{Font, FontFactory, TextLayoutHorizontal, TextLayoutVertical};
use grid2048::wide_strings::WideStringManager;

#[test]
fn wide_string_ends_in_zero() {
    assert_eq!(WideStringManager::to_vec(""), [0]);
    assert_eq!(WideStringManager::to_vec("MyClass"), [77, 121, 67, 108, 97, 115, 115, 0]);
}

#[test]
fn wide_string_is_utf16() {
    assert_eq!(WideStringManager::to_vec("\u{417}\u{430}"), [0x0417, 0x0430, 0]);
    assert_eq!(WideStringManager::to_vec("\u{FFFF}"), [0xFFFF, 0]);
    assert_eq!(WideStringManager::to_vec("\u{10000}"), [0xD800, 0xDC00, 0]);
    assert_eq!(WideStringManager::to_vec("a\u{1F600}b"), [0x61, 0xD83D, 0xDE00, 0x62, 0]);
    assert_eq!(WideStringManager::to_vec("\u{10FFFF}"), [0xDBFF, 0xDFFF, 0]);
    for text in ["Arial", "\u{417}\u{430}\u{433}\u{43e}\u{43b}\u{43e}\u{432}\u{43e}\u{43a}", "\u{1F600}\u{20AC}x"] {
        let mut want: Vec<u16> = text.encode_utf16().collect();
        want.push(0);
        assert_eq!(WideStringManager::to_vec(text), want);
    }
}

#[test]
fn manager_keeps_every_string() {
    assert!(WideStringManager::default().memory.is_empty());
    let mut manager = WideStringManager::new();
    assert!(manager.memory.is_empty());
    assert_eq!(manager.from("ab"), 0);
    assert_eq!(manager.from(""), 1);
    assert_eq!(manager.from("ab"), 2);
    assert_eq!(manager.memory, [vec![0x61, 0x62, 0], vec![0], vec![0x61, 0x62, 0]]);
}

#[test]
fn font_keeps_its_parts() {
    let font = Font::new(
        String::from("Arial"),
        12,
        0x00FF_FFFF,
        TextLayoutHorizontal::RIGHT,
        TextLayoutVertical::TOP,
        3,
    );
    assert_eq!(font.name, "Arial");
    assert_eq!(font.size, 12);
    assert_eq!(font.color, 0x00FF_FFFF);
    assert_eq!(font.layout_horizontal, TextLayoutHorizontal::RIGHT);
    assert_eq!(font.layout_vertical, TextLayoutVertical::TOP);
    assert_eq!(font.id, 3);
}

#[test]
fn factory_numbers_typefaces_in_the_order_of_first_use() {
    let mut factory = FontFactory::new();
    let (h, v) = (TextLayoutHorizontal::MIDDLE, TextLayoutVertical::MIDDLE);
    assert_eq!(factory.new_font("Arial", 12, 0, h, v).id, 0);
    assert_eq!(factory.new_font("Arial", 24, 0, h, v).id, 1);
    assert_eq!(factory.new_font("Courier", 12, 0, h, v).id, 2);
    let again = factory.new_font("Arial", 24, 0x00FF_FFFF, TextLayoutHorizontal::LEFT, v);
    assert_eq!(again.id, 1);
    assert_eq!(again.name, "Arial");
    assert_eq!(again.size, 24);
    assert_eq!(again.color, 0x00FF_FFFF);
    assert_eq!(again.layout_horizontal, TextLayoutHorizontal::LEFT);
    assert_eq!(factory.new_font("Arial", 12, 7, h, v).id, 0);
    assert_eq!(factory.mapping.len(), 3);
    assert_eq!(factory.new_font("arial", 12, 0, h, v).id, 3);
    assert_eq!(factory.library.len(), 4);
    assert!(factory.library.iter().all(|glyphs| glyphs.is_empty()));
}

#[test]
fn factory_is_well_formed_while_no_key_is_twice_in_it() {
    let mut factory = FontFactory::new();
    let (h, v) = (TextLayoutHorizontal::MIDDLE, TextLayoutVertical::MIDDLE);
    assert!(factory.is_wf());
    factory.new_font("Arial", 12, 0, h, v);
    factory.new_font("Arial", 24, 0, h, v);
    factory.new_font("Courier", 12, 0, h, v);
    assert!(factory.is_wf());
    factory.library.pop();
    assert!(!factory.is_wf());
    factory.library.push(Default::default());
    factory.mapping[2] = (String::from("Arial"), 12);
    assert!(!factory.is_wf());
    factory.mapping[2] = (String::from("Arial"), 13);
    assert!(factory.is_wf());
}
