use photo_index::calendar::CivilDateTime;
use photo_index::exif::{
    extract_exif, ExifEntry, ExifField, ExifMap, ExifRead, ExifTag, ExifValue, MetaValue, TimeTag,
};

fn entry(name: &str, kind: TimeTag, value: ExifValue) -> ExifEntry {
    ExifEntry { tag: Some(ExifTag { name: name.to_string(), kind }), value: Some(value) }
}

fn plain(name: &str, value: ExifValue) -> ExifEntry {
    entry(name, TimeTag::Other, value)
}

fn time(y: i32, mo: u32, d: u32, h: u32, mi: u32, s: u32) -> CivilDateTime {
    CivilDateTime::new(y, mo, d, h, mi, s).unwrap()
}

fn field(name: &str, value: MetaValue) -> ExifField {
    ExifField { name: name.to_string(), value }
}

fn text(s: &str) -> MetaValue {
    MetaValue::Text(s.to_string())
}

fn summary(entries: Vec<ExifEntry>) -> (Vec<ExifField>, Option<CivilDateTime>) {
    let (map, time) = extract_exif(&ExifRead::Entries(entries));
    (map.unwrap().fields, time)
}

#[test]
fn a_file_without_exif_data_has_neither_mapping_nor_time() {
    assert_eq!(extract_exif(&ExifRead::Missing), (None, None));
    assert_eq!(extract_exif(&ExifRead::Unreadable), (None, None));
}

#[test]
fn a_file_without_entries_has_an_empty_mapping() {
    let (map, time) = extract_exif(&ExifRead::Entries(vec![]));
    assert_eq!(map, Some(ExifMap { fields: vec![] }));
    assert_eq!(time, None);
}

#[test]
fn every_kind_of_value_is_kept_in_its_form() {
    let (fields, time) = summary(vec![
        plain("Make", ExifValue::Text("  Canon \n".to_string())),
        plain("ExposureTime", ExifValue::URational(1, 250)),
        plain("ExposureBiasValue", ExifValue::IRational(-2, 3)),
        plain("A", ExifValue::U8(255)),
        plain("B", ExifValue::U16(65535)),
        plain("C", ExifValue::U32(4_294_967_295)),
        plain("D", ExifValue::U64(u64::MAX)),
        plain("E", ExifValue::I8(-128)),
        plain("F", ExifValue::I16(-32768)),
        plain("G", ExifValue::I32(i32::MIN)),
        plain("H", ExifValue::I64(i64::MIN)),
        plain("I", ExifValue::F32(0x3fc0_0000)),
        plain("J", ExifValue::F64(0x4004_0000_0000_0000)),
        plain("K", ExifValue::Time(time(2023, 1, 5, 7, 8, 9))),
        plain("L", ExifValue::Other),
    ]);
    assert_eq!(
        fields,
        vec![
            field("Make", text("Canon")),
            field("ExposureTime", MetaValue::Pair(1, 250)),
            field("ExposureBiasValue", MetaValue::Pair(-2, 3)),
            field("A", MetaValue::Unsigned(255)),
            field("B", MetaValue::Unsigned(65535)),
            field("C", MetaValue::Unsigned(4_294_967_295)),
            field("D", MetaValue::Unsigned(u64::MAX)),
            field("E", MetaValue::Signed(-128)),
            field("F", MetaValue::Signed(-32768)),
            field("G", MetaValue::Signed(i32::MIN as i64)),
            field("H", MetaValue::Signed(i64::MIN)),
            field("I", MetaValue::F32(0x3fc0_0000)),
            field("J", MetaValue::F64(0x4004_0000_0000_0000)),
            field("K", text("2023-01-05T07:08:09")),
        ]
    );
    assert_eq!(time, None);
}

#[test]
fn text_of_white_space_alone_is_dropped() {
    let (fields, _) = summary(vec![
        plain("Empty", ExifValue::Text("".to_string())),
        plain("Blank", ExifValue::Text(" \t\r\n\u{a0}\u{3000}".to_string())),
        plain("Kept", ExifValue::Text("x".to_string())),
    ]);
    assert_eq!(fields, vec![field("Kept", text("x"))]);
}

#[test]
fn white_space_is_what_unicode_says() {
    let spaces = [
        '\u{9}', '\u{a}', '\u{b}', '\u{c}', '\u{d}', ' ', '\u{85}', '\u{a0}', '\u{1680}',
        '\u{2000}', '\u{2001}', '\u{2002}', '\u{2003}', '\u{2004}', '\u{2005}', '\u{2006}',
        '\u{2007}', '\u{2008}', '\u{2009}', '\u{200a}', '\u{2028}', '\u{2029}', '\u{202f}',
        '\u{205f}', '\u{3000}',
    ];
    for c in spaces {
        let (fields, _) = summary(vec![plain("T", ExifValue::Text(format!("{}a {}b{}", c, c, c)))]);
        assert_eq!(fields, vec![field("T", text(&format!("a {}b", c)))], "{:?}", c);
    }
    let others = [
        '\u{8}', '\u{e}', '\u{1f}', '!', '\u{84}', '\u{86}', '\u{9f}', '\u{a1}', '\u{167f}',
        '\u{1681}', '\u{180e}', '\u{1fff}', '\u{200b}', '\u{200c}', '\u{2027}', '\u{202a}',
        '\u{202e}', '\u{2030}', '\u{205e}', '\u{2060}', '\u{2fff}', '\u{3001}', '\u{feff}',
    ];
    for c in others {
        let given = format!("{}a{}", c, c);
        let (fields, _) = summary(vec![plain("T", ExifValue::Text(given.clone()))]);
        assert_eq!(fields, vec![field("T", text(&given))], "{:?}", c);
    }
}

#[test]
fn trimming_agrees_with_std_on_every_character() {
    for code in 0..0x3100u32 {
        if let Some(c) = char::from_u32(code) {
            let given = format!("{}x{}", c, c);
            let (fields, _) = summary(vec![plain("T", ExifValue::Text(given.clone()))]);
            assert_eq!(fields, vec![field("T", text(given.trim()))], "{:?}", c);
        }
    }
}

#[test]
fn the_last_value_of_a_name_stays_in_the_first_place() {
    let (fields, _) = summary(vec![
        plain("ImageWidth", ExifValue::U32(4000)),
        plain("ImageHeight", ExifValue::U32(3000)),
        plain("ImageWidth", ExifValue::U32(160)),
        plain("Make", ExifValue::Text("Canon".to_string())),
        plain("ImageHeight", ExifValue::Text("tall".to_string())),
    ]);
    assert_eq!(
        fields,
        vec![
            field("ImageWidth", MetaValue::Unsigned(160)),
            field("ImageHeight", text("tall")),
            field("Make", text("Canon")),
        ]
    );
}

#[test]
fn a_value_that_is_not_kept_leaves_the_earlier_one() {
    let (fields, _) = summary(vec![
        plain("Make", ExifValue::Text("Canon".to_string())),
        plain("Make", ExifValue::Text("   ".to_string())),
        plain("Make", ExifValue::Other),
    ]);
    assert_eq!(fields, vec![field("Make", text("Canon"))]);
}

#[test]
fn entries_without_tag_or_value_are_passed_over() {
    let t = time(2020, 2, 2, 2, 2, 2);
    let (fields, chosen) = summary(vec![
        ExifEntry { tag: None, value: Some(ExifValue::U8(1)) },
        ExifEntry { tag: None, value: Some(ExifValue::Time(t)) },
        ExifEntry {
            tag: Some(ExifTag { name: "CreateDate".to_string(), kind: TimeTag::CreateDate }),
            value: None,
        },
        ExifEntry { tag: None, value: None },
    ]);
    assert_eq!(fields, vec![]);
    assert_eq!(chosen, None);
}

#[test]
fn create_date_wins_wherever_it_stands() {
    let create = entry("CreateDate", TimeTag::CreateDate, ExifValue::Time(time(2021, 1, 1, 1, 1, 1)));
    let original = entry(
        "DateTimeOriginal",
        TimeTag::DateTimeOriginal,
        ExifValue::Time(time(2022, 2, 2, 2, 2, 2)),
    );
    let modify = entry("ModifyDate", TimeTag::ModifyDate, ExifValue::Time(time(2023, 3, 3, 3, 3, 3)));
    let orders = [
        vec![create.clone(), original.clone(), modify.clone()],
        vec![original.clone(), create.clone(), modify.clone()],
        vec![original.clone(), modify.clone(), create.clone()],
        vec![modify.clone(), original.clone(), create.clone()],
        vec![modify.clone(), create.clone(), original.clone()],
        vec![create.clone(), modify.clone(), original.clone()],
        vec![create.clone()],
    ];
    for order in orders {
        let (_, chosen) = summary(order);
        assert_eq!(chosen, Some(time(2021, 1, 1, 1, 1, 1)));
    }
}

#[test]
fn the_last_create_date_wins() {
    let (_, chosen) = summary(vec![
        entry("CreateDate", TimeTag::CreateDate, ExifValue::Time(time(2021, 1, 1, 1, 1, 1))),
        entry("CreateDate", TimeTag::CreateDate, ExifValue::Time(time(2024, 4, 4, 4, 4, 4))),
    ]);
    assert_eq!(chosen, Some(time(2024, 4, 4, 4, 4, 4)));
}

#[test]
fn without_create_date_the_first_of_the_other_two_wins() {
    let original = entry(
        "DateTimeOriginal",
        TimeTag::DateTimeOriginal,
        ExifValue::Time(time(2022, 2, 2, 2, 2, 2)),
    );
    let modify = entry("ModifyDate", TimeTag::ModifyDate, ExifValue::Time(time(2023, 3, 3, 3, 3, 3)));
    let (_, chosen) = summary(vec![original.clone(), modify.clone()]);
    assert_eq!(chosen, Some(time(2022, 2, 2, 2, 2, 2)));
    let (_, chosen) = summary(vec![modify, original]);
    assert_eq!(chosen, Some(time(2023, 3, 3, 3, 3, 3)));
}

#[test]
fn only_times_count_as_capture_time() {
    let (fields, chosen) = summary(vec![
        entry("CreateDate", TimeTag::CreateDate, ExifValue::Text("2021:01:01 01:01:01".to_string())),
        entry("OffsetTime", TimeTag::Other, ExifValue::Time(time(2020, 1, 1, 0, 0, 0))),
    ]);
    assert_eq!(chosen, None);
    assert_eq!(
        fields,
        vec![field("CreateDate", text("2021:01:01 01:01:01")), field("OffsetTime", text("2020-01-01T00:00:00"))]
    );
}

#[test]
fn put_replaces_in_place_or_appends() {
    let mut map = ExifMap::new();
    map.put("a".to_string(), MetaValue::Unsigned(1));
    map.put("b".to_string(), MetaValue::Unsigned(2));
    map.put("a".to_string(), MetaValue::Signed(-3));
    assert_eq!(map.fields, vec![field("a", MetaValue::Signed(-3)), field("b", MetaValue::Unsigned(2))]);
}
