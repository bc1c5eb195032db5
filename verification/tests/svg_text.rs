use typepress::css_layout::count_pdf_pages;
use typepress::svg::{
    build_font_table, decode_shown_text, decode_with_cmap, hex_to_char, hex_to_u16, hex_to_u32,
    parse_tounicode_cmap, CidEncoding, FontInfo, PdfFont,
};

const CMAP: &str = "/CIDInit begincmap\n2 beginbfchar\n<0001> <0041>\n<0002> <D83EDDEC>\nendbfchar\n1 beginbfrange\n<0003> <0005> <0061>\nendbfrange\nendcmap";

#[test]
fn hex_codes() {
    assert_eq!(hex_to_u16("<0041>"), Some(0x41));
    assert_eq!(hex_to_u16("<10000>"), None);
    assert_eq!(hex_to_u16("<zz>"), None);
    assert_eq!(hex_to_u32("<+ff>"), Some(255));
    assert_eq!(hex_to_char("<0041>"), Some('A'));
    assert_eq!(hex_to_char("<D83EDDEC>"), Some('\u{1F9EC}'));
    assert_eq!(hex_to_char("<D800>"), None);
}

#[test]
fn cmap_entries_and_ranges() {
    let m = parse_tounicode_cmap(CMAP.as_bytes()).unwrap();
    assert_eq!(m.len(), 5);
    assert_eq!(m.get(&1), Some(&'A'));
    assert_eq!(m.get(&2), Some(&'\u{1F9EC}'));
    assert_eq!(m.get(&3), Some(&'a'));
    assert_eq!(m.get(&5), Some(&'c'));
}

#[test]
fn backwards_range_is_refused() {
    let bad = "beginbfrange\n<0005> <0003> <0061>\nendbfrange";
    assert!(parse_tounicode_cmap(bad.as_bytes()).is_none());
}

#[test]
fn decoding_two_byte_codes() {
    let m = parse_tounicode_cmap(CMAP.as_bytes()).unwrap();
    let info = FontInfo { cmap: m, encoding: CidEncoding::U16 };
    assert_eq!(decode_with_cmap(&[0, 1, 0, 3, 0, 9], &info), "Aa\u{FFFD}");
    // interleaved adjustments: every odd pair equal
    assert_eq!(decode_with_cmap(&[0, 1, 0, 7, 0, 3, 0, 7], &info), "Aa");
    let single = FontInfo { cmap: parse_tounicode_cmap(CMAP.as_bytes()).unwrap(), encoding: CidEncoding::SingleByte };
    assert_eq!(decode_with_cmap(&[1, 4], &single), "Ab");
}

#[test]
fn font_tables_and_shown_text() {
    let fonts = vec![
        PdfFont { name: "F1".to_string(), is_type3: false, to_unicode: Some(CMAP.as_bytes().to_vec()) },
        PdfFont { name: "F1".to_string(), is_type3: true, to_unicode: None },
        PdfFont { name: "F2".to_string(), is_type3: false, to_unicode: None },
    ];
    let table = build_font_table(&fonts).unwrap();
    assert_eq!(table.len(), 1);
    assert_eq!(table[0].name, "F1");
    let shown = decode_shown_text(&table, "F1", &[vec![0, 1], vec![0, 4]]);
    assert_eq!(shown.as_deref(), Some("Ab"));
    assert_eq!(decode_shown_text(&table, "F9", &[b"Hi".to_vec()]).as_deref(), Some("Hi"));
    assert_eq!(decode_shown_text(&table, "F9", &[b"  ".to_vec()]), None);
}

#[test]
fn pages_are_counted_by_their_markers() {
    let pdf = b"1 0 obj << /Type /Pages /Kids [2 0 R 3 0 R] >>\n2 0 obj << /Type /Page >>\n3 0 obj <</Type/Page/Parent 1 0 R>>";
    assert_eq!(count_pdf_pages(pdf), 2);
    assert_eq!(count_pdf_pages(b"%PDF-1.7"), 0);
}
