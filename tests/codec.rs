use qbset::wire::{read_string, read_u16, read_u8, write_string, write_u16, write_u8};
use qbset::{
    AnswerText, Bonus, BonusPart, BroadCategory, Category, CustomCategory, Cycle, Error, ErrorKind,
    Packet, PronunciationGuide, QuestionSet, QuestionText, Span, Subcategory, Tossup,
};

fn question(raw: &str) -> QuestionText {
    QuestionText { raw: raw.to_string(), guides: vec![] }
}

fn answer(raw: &str, correct: Vec<Span<u8>>) -> AnswerText {
    AnswerText { raw: raw.to_string(), correct, prompt: vec![] }
}

fn test_tossup() -> Tossup {
    Tossup {
        powermark: None,
        second_powermark: None,
        question: question("This is a test question."),
        answer: answer("test answer", vec![Span { start: 0, end: 4 }]),
        category: Category::Subcategory(Subcategory::ComputerSci),
    }
}

fn test_set() -> QuestionSet {
    QuestionSet {
        name: "Test Set".to_string(),
        year: 2024,
        custom_categories: vec![],
        packets: vec![Packet {
            number: 1,
            description: None,
            cycles: vec![Cycle { tossup: Some(test_tossup()), bonus: None }],
        }],
    }
}

fn rich_set() -> QuestionSet {
    let leadin = QuestionText {
        raw: "For ten points each, name these things about Schrödinger.".to_string(),
        guides: vec![PronunciationGuide {
            guide: "SHROH-ding-er".to_string(),
            range: Span { start: 46, end: 57 },
        }],
    };
    let part = BonusPart {
        value: 10,
        text: question("Name his equation."),
        answer: AnswerText {
            raw: "Schrödinger equation".to_string(),
            correct: vec![Span { start: 0, end: 12 }],
            prompt: vec![Span { start: 13, end: 21 }, Span { start: 0, end: 3 }],
        },
    };
    let bonus = Bonus {
        leadin,
        category: Category::Custom(1),
        parts: vec![part.clone(), BonusPart { value: 15, ..part }],
    };
    let marked = Tossup {
        powermark: Some(300),
        second_powermark: Some(120),
        category: Category::Subcategory(Subcategory::AmericanLit),
        ..test_tossup()
    };
    let single = Tossup { powermark: Some(7), second_powermark: None, ..test_tossup() };
    QuestionSet {
        name: "Rich".to_string(),
        year: 1999,
        custom_categories: vec![
            CustomCategory { name: "Current events".to_string(), general: BroadCategory::Other },
            CustomCategory { name: "Sports".to_string(), general: BroadCategory::Trash },
            CustomCategory { name: "Poetry".to_string(), general: BroadCategory::Literature },
        ],
        packets: vec![
            Packet {
                number: 3,
                description: Some("Finals".to_string()),
                cycles: vec![
                    Cycle { tossup: Some(marked), bonus: Some(bonus.clone()) },
                    Cycle { tossup: None, bonus: Some(bonus) },
                    Cycle { tossup: Some(single), bonus: None },
                    Cycle { tossup: None, bonus: None },
                ],
            },
            Packet { number: 4, description: None, cycles: vec![] },
        ],
    }
}

fn encode(set: &QuestionSet) -> Vec<u8> {
    let mut out = Vec::new();
    set.write_to(&mut out).expect("set fits the format");
    out
}

fn kind<T>(r: Result<T, Error>) -> ErrorKind {
    match r {
        Ok(_) => panic!("expected an error"),
        Err(e) => e.kind(),
    }
}

#[test]
fn end_to_end_scenario() {
    let set = test_set();
    let bytes = encode(&set);
    assert!(bytes.starts_with(b"QbSet\0"));
    let back = QuestionSet::from_reader(&bytes).unwrap();
    assert_eq!(back, set);
}

#[test]
fn end_to_end_scenario_exact_bytes() {
    let bytes = encode(&test_set());
    let mut expected: Vec<u8> = b"QbSet\0".to_vec();
    expected.extend_from_slice(&[8, 0]);
    expected.extend_from_slice(b"Test Set");
    expected.extend_from_slice(&[0xe8, 0x07, 0, 0, 1]);
    expected.extend_from_slice(&[1, 0, 0, 1, 0b10, 0, 0]);
    expected.extend_from_slice(&[24, 0]);
    expected.extend_from_slice(b"This is a test question.");
    expected.push(0);
    expected.extend_from_slice(&[11, 0]);
    expected.extend_from_slice(b"test answer");
    expected.extend_from_slice(&[1, 0, 4, 0, 17]);
    assert_eq!(bytes, expected);
}

#[test]
fn round_trip_rich_set() {
    let set = rich_set();
    let bytes = encode(&set);
    assert_eq!(QuestionSet::from_reader(&bytes).unwrap(), set);
}

#[test]
fn trailing_bytes_are_ignored() {
    let set = rich_set();
    let mut bytes = encode(&set);
    bytes.extend_from_slice(&[9, 9, 9]);
    assert_eq!(QuestionSet::from_reader(&bytes).unwrap(), set);
}

#[test]
fn write_appends_to_what_is_there() {
    let mut out = vec![1, 2, 3];
    test_set().write_to(&mut out).unwrap();
    assert_eq!(&out[..3], &[1, 2, 3]);
    assert_eq!(&out[3..], &encode(&test_set())[..]);
}

#[test]
fn bad_magic_is_malformed() {
    let mut bytes = encode(&test_set());
    bytes[0] = b'X';
    assert_eq!(kind(QuestionSet::from_reader(&bytes)), ErrorKind::MalformedInput);
    assert_eq!(kind(QuestionSet::from_reader(b"QbSet")), ErrorKind::MalformedInput);
    assert_eq!(kind(QuestionSet::from_reader(b"")), ErrorKind::MalformedInput);
    assert_eq!(kind(QuestionSet::from_reader(b"QbSeT\0\x00\x00")), ErrorKind::MalformedInput);
}

#[test]
fn category_boundary() {
    let read = |b: u8| Category::read_from(&[b], 0).unwrap();
    assert_eq!(read(29), (Category::Subcategory(Subcategory::Trash), 1));
    assert_eq!(read(30), (Category::Custom(0), 1));
    assert_eq!(read(255), (Category::Custom(225), 1));
    assert_eq!(read(0), (Category::Subcategory(Subcategory::AmericanLit), 1));
    assert_eq!(read(17), (Category::Subcategory(Subcategory::ComputerSci), 1));
}

#[test]
fn category_bytes_written() {
    let mut out = Vec::new();
    Category::Custom(0).write_to(&mut out);
    Category::Custom(225).write_to(&mut out);
    Category::Subcategory(Subcategory::Trash).write_to(&mut out);
    Category::Subcategory(Subcategory::BritishLit).write_to(&mut out);
    assert_eq!(out, vec![30, 255, 29, 1]);
}

#[test]
fn subcategory_ordinals() {
    assert_eq!(Subcategory::from_ordinal(29).unwrap(), Subcategory::Trash);
    assert_eq!(Subcategory::from_ordinal(13).unwrap(), Subcategory::Physics);
    assert_eq!(kind(Subcategory::from_ordinal(30)), ErrorKind::MalformedInput);
    assert_eq!(Subcategory::Geography.ordinal(), 27);
    for b in 0..30u8 {
        assert_eq!(Subcategory::from_ordinal(b).unwrap().ordinal(), b);
    }
}

#[test]
fn broad_categories() {
    assert_eq!(Subcategory::Math.broad_category(), BroadCategory::Science);
    assert_eq!(Subcategory::Mythology.broad_category(), BroadCategory::Rmpss);
    assert_eq!(Subcategory::WorldHist.broad_category(), BroadCategory::History);
    assert_eq!(BroadCategory::Arts.as_subcat_other(), Subcategory::OtherFineArts);
    assert_eq!(BroadCategory::Other.as_subcat_other(), Subcategory::OtherAcademic);
    let all = [
        BroadCategory::Literature,
        BroadCategory::History,
        BroadCategory::Science,
        BroadCategory::Arts,
        BroadCategory::Rmpss,
        BroadCategory::Geography,
        BroadCategory::Other,
        BroadCategory::Trash,
    ];
    for b in all {
        assert_eq!(b.as_subcat_other().broad_category(), b);
    }
}

#[test]
fn tossup_without_powermark_has_one_mark_field() {
    let t = Tossup { second_powermark: Some(55), ..test_tossup() };
    let mut out = Vec::new();
    t.write_to(&mut out);
    let mut plain = Vec::new();
    test_tossup().write_to(&mut plain);
    assert_eq!(out, plain);
    assert_eq!(&out[..4], &[0, 0, 24, 0]);
    let (back, end) = Tossup::read_from(&out, 0).unwrap();
    assert_eq!(end, out.len());
    assert_eq!(back.second_powermark, None);
    assert_eq!(back, test_tossup());
}

#[test]
fn tossup_with_powermarks_round_trips() {
    let t = Tossup { powermark: Some(0x0102), second_powermark: Some(3), ..test_tossup() };
    let mut out = Vec::new();
    t.write_to(&mut out);
    assert_eq!(&out[..4], &[2, 1, 3, 0]);
    assert_eq!(Tossup::read_from(&out, 0).unwrap(), (t, out.len()));
}

#[test]
fn empty_description_reads_as_none() {
    let p = Packet { number: 2, description: Some(String::new()), cycles: vec![] };
    let mut out = Vec::new();
    p.write_to(&mut out);
    assert_eq!(out, vec![2, 0, 0, 0]);
    let (back, _) = Packet::read_from(&out, 0).unwrap();
    assert_eq!(back.description, None);
    assert_eq!(back, Packet { description: None, ..p });
}

#[test]
fn too_many_packets_refused() {
    let mut set = test_set();
    let packet = Packet { number: 0, description: None, cycles: vec![] };
    set.packets = vec![packet; 256];
    let mut out = vec![7];
    assert_eq!(kind(set.write_to(&mut out)), ErrorKind::MalformedInput);
    assert_eq!(out, vec![7]);
    set.packets.pop();
    assert!(set.write_to(&mut out).is_ok());
    let back = QuestionSet::from_reader(&out[1..]).unwrap();
    assert_eq!(back.packets.len(), 255);
}

#[test]
fn too_many_custom_categories_refused() {
    let mut set = test_set();
    let c = CustomCategory { name: "x".to_string(), general: BroadCategory::Arts };
    set.custom_categories = vec![c; 256];
    assert!(!set.fits());
    assert_eq!(kind(set.write_to(&mut Vec::new())), ErrorKind::MalformedInput);
}

#[test]
fn custom_index_past_byte_refused() {
    let mut set = test_set();
    set.packets[0].cycles[0].tossup.as_mut().unwrap().category = Category::Custom(226);
    assert_eq!(kind(set.write_to(&mut Vec::new())), ErrorKind::MalformedInput);
}

#[test]
fn long_string_refused() {
    let mut set = test_set();
    set.name = "a".repeat(65536);
    assert_eq!(kind(set.write_to(&mut Vec::new())), ErrorKind::MalformedInput);
    set.name = "a".repeat(65535);
    let bytes = encode(&set);
    assert_eq!(QuestionSet::from_reader(&bytes).unwrap(), set);
}

#[test]
fn truncated_input_is_eof() {
    let bytes = encode(&rich_set());
    for cut in 6..bytes.len() {
        assert_eq!(kind(QuestionSet::from_reader(&bytes[..cut])), ErrorKind::UnexpectedEof);
    }
}

#[test]
fn invalid_utf8_is_reported() {
    let mut bytes = b"QbSet\0".to_vec();
    bytes.extend_from_slice(&[2, 0, 0xc3, 0x28, 0xe8, 0x07, 0, 0, 0]);
    assert_eq!(kind(QuestionSet::from_reader(&bytes)), ErrorKind::InvalidUtf8);
}

#[test]
fn bad_custom_category_ordinal_is_malformed() {
    let mut bytes = b"QbSet\0".to_vec();
    bytes.extend_from_slice(&[0, 0, 0xe8, 0x07, 0, 1, 1, 0, b'x', 30, 0]);
    assert_eq!(kind(QuestionSet::from_reader(&bytes)), ErrorKind::MalformedInput);
    let n = bytes.len();
    bytes[n - 2] = 28;
    let set = QuestionSet::from_reader(&bytes).unwrap();
    assert_eq!(
        set.custom_categories,
        vec![CustomCategory { name: "x".to_string(), general: BroadCategory::Other }]
    );
}

#[test]
fn version_byte_is_not_interpreted() {
    let mut bytes = encode(&test_set());
    assert_eq!(bytes[6 + 2 + 8 + 2], 0);
    bytes[6 + 2 + 8 + 2] = 42;
    assert_eq!(QuestionSet::from_reader(&bytes).unwrap(), test_set());
}

#[test]
fn empty_cycle_flags() {
    let (c, end) = Cycle::read_from(&[0], 0).unwrap();
    assert_eq!(c, Cycle { tossup: None, bonus: None });
    assert_eq!(end, 1);
}

#[test]
fn primitive_fields() {
    let mut out = Vec::new();
    write_u8(&mut out, 0xab);
    write_u16(&mut out, 0x1234);
    write_string(&mut out, "héllo");
    assert_eq!(out, vec![0xab, 0x34, 0x12, 6, 0, b'h', 0xc3, 0xa9, b'l', b'l', b'o']);
    assert_eq!(read_u8(&out, 0).unwrap(), (0xab, 1));
    assert_eq!(read_u16(&out, 1).unwrap(), (0x1234, 3));
    assert_eq!(read_string(&out, 3).unwrap(), ("héllo".to_string(), 11));
    assert_eq!(kind(read_u16(&out, 10)), ErrorKind::UnexpectedEof);
    assert_eq!(kind(read_u8(&out, 11)), ErrorKind::UnexpectedEof);
    assert_eq!(kind(read_string(&[5, 0, b'a'], 0)), ErrorKind::UnexpectedEof);
    assert_eq!(kind(read_string(&[1, 0, 0xff], 0)), ErrorKind::InvalidUtf8);
}

#[test]
fn question_text_with_guides_round_trips() {
    let q = QuestionText {
        raw: "Kierkegaard wrote this.".to_string(),
        guides: vec![
            PronunciationGuide { guide: "KEER-kuh-gard".to_string(), range: Span { start: 0, end: 11 } },
            PronunciationGuide { guide: "".to_string(), range: Span { start: 300, end: 2 } },
        ],
    };
    let mut out = Vec::new();
    q.write_to(&mut out);
    assert_eq!(out[2 + 23], 2);
    assert_eq!(QuestionText::read_from(&out, 0).unwrap(), (q, out.len()));
}

#[test]
fn category_display_names() {
    let customs = vec![
        CustomCategory { name: "Current events".to_string(), general: BroadCategory::Other },
        CustomCategory { name: "Sports".to_string(), general: BroadCategory::Trash },
    ];
    assert_eq!(Category::Custom(1).to_string(&customs), "Sports");
    assert_eq!(Category::Custom(0).to_string(&customs), "Current events");
    assert_eq!(
        Category::Subcategory(Subcategory::ComputerSci).to_string(&customs),
        "Computer Science"
    );
    assert_eq!(Subcategory::OtherRmpss.name(), "Other RMPSS");
}
