use xpttools::card::{
    card_is_banner, contains_bytes, find_bytes, is_zero_card, looks_like_header, CardStream,
    Section,
};
use xpttools::namestr::{be_i16, be_u16, be_u32, hinted_variable_count, sort_order};
use xpttools::text::{decode_char, trimmed_len};
use xpttools::title::{choose_title, infer_dataset_title, marker_title};
use xpttools::xpt_parser::default_variable_name;

#[test]
fn text_is_trimmed_on_the_right() {
    assert_eq!(decode_char(b"AGE     "), "AGE");
    assert_eq!(decode_char(b"  AGE \t\0\0 "), "  AGE");
    assert_eq!(decode_char(b"        "), "");
    assert_eq!(decode_char(b""), "");
    assert_eq!(decode_char(b"A B"), "A B");
}

#[test]
fn upper_half_is_windows_1252() {
    // Would fail if the bytes were handed back as they are, or read as Latin-1.
    assert_eq!(decode_char(&[0x80]), "\u{20AC}");
    assert_eq!(decode_char(&[0x63, 0x61, 0x66, 0xE9]), "caf\u{E9}");
    assert_eq!(decode_char(&[0x93, 0x78, 0x94]), "\u{201C}x\u{201D}");
    assert_eq!(decode_char(&[0x85]), "\u{2026}");
    assert_eq!(decode_char(&[0x81, 0x8D, 0x8F, 0x90, 0x9D]), "\u{81}\u{8D}\u{8F}\u{90}\u{9D}");
    assert_eq!(decode_char(&[0x9F, 0xFF]), "\u{178}\u{FF}");
}

#[test]
fn every_byte_is_one_character() {
    let all: Vec<u8> = (1u8..=255).rev().collect();
    let text = decode_char(&all);
    assert_eq!(text.chars().count(), 255);
}

#[test]
fn a_byte_order_mark_is_text() {
    assert_eq!(decode_char(&[0xEF, 0xBB, 0xBF, 0x41]), "\u{EF}\u{BB}\u{BF}A");
    assert_eq!(decode_char(&[0xFF, 0xFE, 0x41, 0x00]), "\u{FF}\u{FE}A");
}

#[test]
fn no_break_space_is_padding() {
    assert_eq!(decode_char(&[0x41, 0xA0, 0xA0]), "A");
    assert_eq!(trimmed_len(&[0x41, 0xA0, 0x20, 0x00]), 1);
    assert_eq!(trimmed_len(&[0x20, 0x41]), 2);
    assert_eq!(trimmed_len(&[]), 0);
}

#[test]
fn find_bytes_gives_the_first_occurrence() {
    assert_eq!(find_bytes(b"abcabc", b"bc"), Some(1));
    assert_eq!(find_bytes(b"abcabc", b"abcabc"), Some(0));
    assert_eq!(find_bytes(b"abcabc", b"cab"), Some(2));
    assert_eq!(find_bytes(b"abcabc", b"x"), None);
    assert_eq!(find_bytes(b"ab", b"abc"), None);
    assert_eq!(find_bytes(b"", b"a"), None);
    assert!(contains_bytes(b"xxOBSxx", b"OBS"));
    assert!(!contains_bytes(b"xxOBxSx", b"OBS"));
}

fn card(text: &str) -> Vec<u8> {
    let mut bytes = text.as_bytes().to_vec();
    assert!(bytes.len() <= 80);
    bytes.resize(80, b' ');
    bytes
}

#[test]
fn banners_are_found_by_their_words() {
    let member = card("HEADER RECORD*******MEMBER  HEADER RECORD!!!!!!!000000000000000001600000000140");
    assert!(card_is_banner(&member, Section::Member));
    assert!(!card_is_banner(&member, Section::Namestr));
    assert!(!card_is_banner(&member, Section::Obs));
    assert!(looks_like_header(&member));
    // Uneven spacing is tolerated.
    let odd = card("HEADER RECORD*******OBS HEADER  RECORD");
    assert!(card_is_banner(&odd, Section::Obs));
    // The section's word alone is no banner.
    assert!(!card_is_banner(&card("NAMESTR"), Section::Namestr));
    assert!(!card_is_banner(&card("HEADER"), Section::Namestr));
    assert!(card_is_banner(&card("xxLIBRARYxxHEADERxx"), Section::Library));
    assert!(card_is_banner(&card("DSCRPTR HEADER"), Section::Dscrptr));
}

#[test]
fn banner_prefix_is_twenty_bytes_of_a_card() {
    assert!(looks_like_header(&card("HEADER RECORD*******")));
    assert!(looks_like_header(&card("HEADER RECORD*******anything")));
    assert!(!looks_like_header(&card("HEADER RECORD******")));
    assert!(!looks_like_header(&card("HEADER RECORD****** *")));
    assert!(!looks_like_header(&card(" HEADER RECORD*******")));
    assert!(!looks_like_header(&[0u8; 80]));
}

#[test]
fn only_a_card_looks_like_a_header() {
    assert!(!looks_like_header(b"HEADER RECORD*******"));
    assert!(!looks_like_header(b"HEADER RECORD*******anything"));
    assert!(!looks_like_header(b""));
    let mut long = card("HEADER RECORD*******");
    assert!(!looks_like_header(&long[..79]));
    long.push(b' ');
    assert!(!looks_like_header(&long));
}

#[test]
fn zero_cards() {
    assert!(is_zero_card(&[0u8; 80]));
    let mut one = [0u8; 80];
    one[79] = 1;
    assert!(!is_zero_card(&one));
    assert!(!is_zero_card(&[b' '; 80]));
}

#[test]
fn card_stream_peeks_and_takes() {
    let mut data = card("first");
    data.extend(card("second"));
    data.extend_from_slice(b"cut short");
    let mut stream = CardStream::new(&data);
    assert_eq!(stream.offset(), 0);
    assert_eq!(stream.peek_card().unwrap(), &card("first")[..]);
    assert_eq!(stream.offset(), 0);
    assert_eq!(stream.next_card().unwrap(), &card("first")[..]);
    assert_eq!(stream.offset(), 80);
    assert_eq!(stream.peek_card().unwrap(), &card("second")[..]);
    assert_eq!(stream.next_card().unwrap(), &card("second")[..]);
    assert_eq!(stream.offset(), 160);
    assert!(stream.peek_card().is_none());
    assert!(stream.next_card().is_none());
    assert_eq!(stream.offset(), 160);
    assert!(!stream.at_end());
    let stream = CardStream::at(&data, 169);
    assert!(stream.at_end());
    let stream = CardStream::at(&data, 80);
    assert_eq!(stream.peek_card().unwrap(), &card("second")[..]);
}

#[test]
fn big_endian_numbers() {
    assert_eq!(be_u16(&[0x01, 0x02]), 0x0102);
    assert_eq!(be_u16(&[0xFF, 0xFF]), 0xFFFF);
    assert_eq!(be_i16(&[0x00, 0x08]), 8);
    assert_eq!(be_i16(&[0xFF, 0xFF]), -1);
    assert_eq!(be_i16(&[0x80, 0x00]), i16::MIN);
    assert_eq!(be_i16(&[0x7F, 0xFF]), i16::MAX);
    assert_eq!(be_u32(&[0x00, 0x00, 0x01, 0x00]), 256);
    assert_eq!(be_u32(&[0xFF, 0xFF, 0xFF, 0xFF]), u32::MAX);
    assert_eq!(be_u32(&[0x12, 0x34, 0x56, 0x78, 0x9A]), 0x1234_5678);
}

#[test]
fn hinted_count_is_four_digits_at_54() {
    let mut data = vec![b' '; 80];
    data[54..58].copy_from_slice(b"0007");
    assert_eq!(hinted_variable_count(&data), Some(7));
    data[54..58].copy_from_slice(b"1234");
    assert_eq!(hinted_variable_count(&data), Some(1234));
    data[54..58].copy_from_slice(b"9999");
    assert_eq!(hinted_variable_count(&data), Some(9999));
    data[54..58].copy_from_slice(b"  12");
    assert_eq!(hinted_variable_count(&data), None);
    data[54..58].copy_from_slice(b"12a4");
    assert_eq!(hinted_variable_count(&data), None);
    assert_eq!(hinted_variable_count(&data[..57]), None);
}

#[test]
fn order_is_by_position_then_by_declaration() {
    assert_eq!(sort_order(&vec![]), Vec::<usize>::new());
    assert_eq!(sort_order(&vec![0, 8, 16]), vec![0, 1, 2]);
    assert_eq!(sort_order(&vec![16, 8, 0]), vec![2, 1, 0]);
    assert_eq!(sort_order(&vec![0, 0, 0, 0]), vec![0, 1, 2, 3]);
    assert_eq!(sort_order(&vec![8, 0, 8, 0, 4]), vec![1, 3, 4, 0, 2]);
    assert_eq!(sort_order(&vec![u32::MAX, 0]), vec![1, 0]);
}

#[test]
fn title_is_the_first_word_behind_the_marker() {
    assert_eq!(marker_title(b"xx MEMBER  NAME  CARS    more"), Some("CARS".to_string()));
    assert_eq!(marker_title(b"MEMBER  NAME\0\0CARS\0more"), Some("CARS".to_string()));
    assert_eq!(marker_title(b"MEMBER  NAMECARS"), Some("CARS".to_string()));
    assert_eq!(marker_title(b"MEMBER  NAME      "), None);
    assert_eq!(marker_title(b"MEMBER  NAME"), None);
    assert_eq!(marker_title(b"MEMBER NAME CARS"), None);
    assert_eq!(marker_title(b""), None);
    // Only the 80 bytes behind the marker are searched.
    let mut far = b"MEMBER  NAME".to_vec();
    far.extend(vec![b' '; 80]);
    far.extend_from_slice(b"CARS");
    assert_eq!(marker_title(&far), None);
    let mut near = b"MEMBER  NAME".to_vec();
    near.extend(vec![b' '; 78]);
    near.extend_from_slice(b"CARS");
    assert_eq!(marker_title(&near), Some("CA".to_string()));
    // The first marker counts.
    assert_eq!(marker_title(b"MEMBER  NAME A MEMBER  NAME B"), Some("A".to_string()));
}

#[test]
fn title_falls_back_to_stem_then_placeholder() {
    assert_eq!(choose_title(Some("A".to_string()), Some("B".to_string())), "A");
    assert_eq!(choose_title(None, Some("B".to_string())), "B");
    assert_eq!(choose_title(None, None), "XPT Dataset");
    assert_eq!(infer_dataset_title(b"MEMBER  NAME CARS", Some("file.xpt")), "CARS");
    assert_eq!(infer_dataset_title(b"nothing", Some("file.xpt")), "file");
    assert_eq!(infer_dataset_title(b"nothing", Some("study.v5.xpt")), "study.v5");
    assert_eq!(infer_dataset_title(b"nothing", None), "XPT Dataset");
    assert_eq!(infer_dataset_title(b"nothing", Some("")), "XPT Dataset");
}

#[test]
fn default_names_count_from_one() {
    assert_eq!(default_variable_name(0), "VAR1");
    assert_eq!(default_variable_name(8), "VAR9");
    assert_eq!(default_variable_name(9), "VAR10");
    assert_eq!(default_variable_name(99), "VAR100");
    assert_eq!(default_variable_name(12344), "VAR12345");
    assert_eq!(default_variable_name(1_000_000_006), "VAR1000000007");
}
