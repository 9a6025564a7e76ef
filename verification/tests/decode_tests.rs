use xpttools::export::{DatasetOut, VarOut};
use xpttools::rows::{decode_observations, decode_row, parse_cell, parse_numeric_value};
use xpttools::namestr::{decode_variables, parse_namestr_140};
use xpttools::xpt::decode_member;
use xpttools::card::Section;
use xpttools::{
    read_xpt_v5_from_bytes, Cell, Dataset, VarMeta, VariableType, XPTParser, XPTRow, XptError,
};

const ONE: [u8; 8] = [0x41, 0x10, 0, 0, 0, 0, 0, 0];
const TWO: [u8; 8] = [0x41, 0x20, 0, 0, 0, 0, 0, 0];
const MISSING: [u8; 8] = [0x2E, 0, 0, 0, 0, 0, 0, 0];

fn card(text: &str) -> Vec<u8> {
    let mut bytes = text.as_bytes().to_vec();
    assert!(bytes.len() <= 80);
    bytes.resize(80, b' ');
    bytes
}

fn banner(section: &str) -> Vec<u8> {
    card(&format!("HEADER RECORD*******{} HEADER RECORD!!!!!!!000000000000000000000000000000", section))
}

fn library_header() -> Vec<u8> {
    let mut out = banner("LIBRARY");
    out.extend(card("SAS     SAS     SASLIB  6.06    bsd4.2"));
    out.extend(card("16FEB11:10:07:55"));
    out
}

fn member_header(name: &str) -> Vec<u8> {
    let mut out = banner("MEMBER ");
    out.extend(card(&format!("SAS     MEMBER  NAME  {}  SASDATA", name)));
    out.extend(card("16FEB11:10:07:55"));
    out.extend(card(""));
    out
}

fn dscrptr_header() -> Vec<u8> {
    let mut out = banner("DSCRPTR");
    out.extend(card("SAS     descriptor data"));
    out
}

fn namestr_header(hint: &str) -> Vec<u8> {
    let mut out = banner("NAMESTR");
    let mut data = vec![b'0'; 80];
    data[54..58].copy_from_slice(hint.as_bytes());
    out.extend(data);
    out
}

fn obs_header() -> Vec<u8> {
    let mut out = banner("OBS    ");
    out.extend(card(""));
    out
}

fn descriptor(numeric: bool, length: u16, varnum: i16, name: &str, label: &str, position: u32) -> Vec<u8> {
    let mut d = vec![0u8; 140];
    d[0..2].copy_from_slice(&(if numeric { 1u16 } else { 2u16 }).to_be_bytes());
    d[4..6].copy_from_slice(&length.to_be_bytes());
    d[6..8].copy_from_slice(&varnum.to_be_bytes());
    d[8..16].copy_from_slice(format!("{:<8}", name).as_bytes());
    d[16..56].copy_from_slice(format!("{:<40}", label).as_bytes());
    d[56..64].copy_from_slice(b"BEST    ");
    d[64..66].copy_from_slice(&12i16.to_be_bytes());
    d[66..68].copy_from_slice(&2i16.to_be_bytes());
    d[72..80].copy_from_slice(b"F       ");
    d[80..82].copy_from_slice(&8i16.to_be_bytes());
    d[82..84].copy_from_slice(&(-1i16).to_be_bytes());
    d[84..88].copy_from_slice(&position.to_be_bytes());
    d
}

fn pad_to_card(mut bytes: Vec<u8>, fill: u8) -> Vec<u8> {
    while bytes.len() % 80 != 0 {
        bytes.push(fill);
    }
    bytes
}

fn three_descriptors() -> Vec<u8> {
    let mut d = descriptor(true, 8, 1, "X", "first number", 0);
    d.extend(descriptor(true, 8, 2, "Y", "second number", 8));
    d.extend(descriptor(false, 8, 3, "NAME", "a name", 16));
    pad_to_card(d, 0)
}

fn row(x: [u8; 8], y: [u8; 8], name: &str) -> Vec<u8> {
    let mut r = x.to_vec();
    r.extend(y);
    r.extend(format!("{:<8}", name).as_bytes());
    r
}

fn ten_rows(tag: &str) -> Vec<u8> {
    let mut out = Vec::new();
    for i in 0..10 {
        out.extend(row(ONE, if i % 2 == 0 { TWO } else { MISSING }, &format!("{}{}", tag, i)));
    }
    assert_eq!(out.len(), 240);
    out
}

fn member(name: &str, hint: &str, observations: Vec<u8>) -> Vec<u8> {
    let mut out = member_header(name);
    out.extend(dscrptr_header());
    out.extend(namestr_header(hint));
    out.extend(three_descriptors());
    out.extend(obs_header());
    out.extend(observations);
    out
}

fn number(cell: &Cell) -> Option<f64> {
    match cell {
        Cell::Numeric(bits) => bits.map(f64::from_bits),
        Cell::Character(_) => panic!("not a number"),
    }
}

fn text(cell: &Cell) -> &str {
    match cell {
        Cell::Character(s) => s,
        Cell::Numeric(_) => panic!("not text"),
    }
}

#[test]
fn two_members_behind_a_library_header() {
    let mut file = library_header();
    file.extend(member("FIRST", "0003", ten_rows("a")));
    file.extend(member("SECOND", "0003", ten_rows("b")));
    let datasets = read_xpt_v5_from_bytes(&file).unwrap();
    assert_eq!(datasets.len(), 2);
    assert_eq!(datasets[0].name, "FIRST");
    assert_eq!(datasets[1].name, "SECOND");
    for (ds, tag) in datasets.iter().zip(["a", "b"]) {
        let names: Vec<&str> = ds.vars.iter().map(|v| v.name.as_str()).collect();
        assert_eq!(names, ["X", "Y", "NAME"]);
        assert_eq!(ds.vars[0].kind(), VariableType::Numeric);
        assert_eq!(ds.vars[1].kind(), VariableType::Numeric);
        assert_eq!(ds.vars[2].kind(), VariableType::Character);
        assert_eq!(ds.rows.len(), 10);
        for (i, r) in ds.rows.iter().enumerate() {
            assert_eq!(r.values.len(), 3);
            assert_eq!(number(&r.values[0]), Some(1.0));
            assert_eq!(number(&r.values[1]), if i % 2 == 0 { Some(2.0) } else { None });
            assert_eq!(text(&r.values[2]), format!("{}{}", tag, i));
        }
    }
}

#[test]
fn descriptor_fields() {
    let v = parse_namestr_140(&descriptor(true, 8, 7, "WEIGHT", "Weight in kg", 24));
    assert_eq!(
        v,
        VarMeta {
            name: "WEIGHT".into(),
            label: "Weight in kg".into(),
            format_name: "BEST".into(),
            format_len: 12,
            format_decimals: 2,
            informat_name: "F".into(),
            informat_len: 8,
            informat_decimals: -1,
            length: 8,
            position: 24,
            is_char: false,
            varnum: 7,
        }
    );
    // Any type code but 1 is character; a length of 0 is read as 1.
    let mut d = descriptor(false, 0, 1, "C", "", 0);
    d[0..2].copy_from_slice(&0u16.to_be_bytes());
    let v = parse_namestr_140(&d);
    assert!(v.is_char);
    assert_eq!(v.length, 1);
    // Only the first 88 bytes are read.
    assert_eq!(parse_namestr_140(&d[..88]), v);
}

#[test]
fn wrong_hint_is_overruled_by_geometry() {
    // No LIBRARY wrapper, no MEMBER or DSCRPTR header; the hint says 7.
    let mut file = namestr_header("0007");
    file.extend(three_descriptors());
    file.extend(obs_header());
    file.extend(ten_rows("r"));
    let datasets = read_xpt_v5_from_bytes(&file).unwrap();
    assert_eq!(datasets.len(), 1);
    assert_eq!(datasets[0].vars.len(), 3);
    assert_eq!(datasets[0].rows.len(), 10);
    assert_eq!(datasets[0].name, "XPT Dataset");
    // A hint that is missing changes nothing.
    let mut other = namestr_header("    ");
    other.extend(three_descriptors());
    other.extend(obs_header());
    other.extend(ten_rows("r"));
    assert_eq!(read_xpt_v5_from_bytes(&other).unwrap(), datasets);
}

#[test]
fn member_header_without_library_header() {
    let file = member("ONLY", "0003", ten_rows("r"));
    let datasets = read_xpt_v5_from_bytes(&file).unwrap();
    assert_eq!(datasets.len(), 1);
    assert_eq!(datasets[0].name, "ONLY");
    assert_eq!(datasets[0].rows.len(), 10);
}

#[test]
fn dscrptr_header_is_optional() {
    let mut file = library_header();
    file.extend(member_header("NODESC"));
    file.extend(namestr_header("0003"));
    file.extend(three_descriptors());
    file.extend(obs_header());
    file.extend(ten_rows("r"));
    let datasets = read_xpt_v5_from_bytes(&file).unwrap();
    assert_eq!(datasets[0].vars.len(), 3);
    assert_eq!(datasets[0].rows.len(), 10);
}

#[test]
fn zero_cards_before_the_descriptors_are_skipped() {
    let mut file = namestr_header("0003");
    file.extend(vec![0u8; 160]);
    file.extend(three_descriptors());
    file.extend(obs_header());
    file.extend(ten_rows("r"));
    let datasets = read_xpt_v5_from_bytes(&file).unwrap();
    assert_eq!(datasets[0].vars.len(), 3);
    assert_eq!(datasets[0].vars[0].name, "X");
}

#[test]
fn variables_come_in_order_of_position() {
    let mut d = descriptor(false, 4, 1, "C", "", 16);
    d.extend(descriptor(true, 8, 2, "B", "", 8));
    d.extend(descriptor(true, 8, 3, "A", "", 0));
    let vars = decode_variables(&pad_to_card(d, 0));
    let names: Vec<&str> = vars.iter().map(|v| v.name.as_str()).collect();
    assert_eq!(names, ["A", "B", "C"]);
    // Equal positions keep the order of the descriptors.
    let mut d = descriptor(true, 8, 1, "P", "", 0);
    d.extend(descriptor(true, 8, 2, "Q", "", 0));
    d.extend(descriptor(true, 8, 3, "R", "", 0));
    let vars = decode_variables(&d);
    let names: Vec<&str> = vars.iter().map(|v| v.name.as_str()).collect();
    assert_eq!(names, ["P", "Q", "R"]);
    assert_eq!(decode_variables(&d[..139]).len(), 0);
    assert_eq!(decode_variables(&d[..280]).len(), 2);
}

#[test]
fn rows_are_cut_by_length_not_by_position() {
    // Declared positions 100 and 0: the order follows them, the offsets do not.
    let mut d = descriptor(false, 3, 1, "LATE", "", 100);
    d.extend(descriptor(true, 8, 2, "EARLY", "", 0));
    let vars = decode_variables(&d);
    assert_eq!(vars[0].name, "EARLY");
    let mut bytes = ONE.to_vec();
    bytes.extend_from_slice(b"abc");
    let r = decode_row(&vars, &bytes);
    assert_eq!(number(&r.values[0]), Some(1.0));
    assert_eq!(text(&r.values[1]), "abc");
}

#[test]
fn trailing_blanks_are_padding() {
    // Three rows of 24 bytes and 8 blanks make one card.
    let mut obs = Vec::new();
    for i in 0..3 {
        obs.extend(row(ONE, TWO, &format!("n{}", i)));
    }
    let good = pad_to_card(obs.clone(), 0x20);
    let mut file = namestr_header("0003");
    file.extend(three_descriptors());
    file.extend(obs_header());
    let prefix = file.clone();
    file.extend(good);
    let datasets = read_xpt_v5_from_bytes(&file).unwrap();
    assert_eq!(datasets[0].rows.len(), 3);
    assert_eq!(text(&datasets[0].rows[2].values[2]), "n2");

    // The same with zeros.
    let mut zeros = prefix.clone();
    zeros.extend(pad_to_card(obs.clone(), 0));
    assert_eq!(read_xpt_v5_from_bytes(&zeros).unwrap(), datasets);

    // The same with something else is refused.
    let mut bad = prefix.clone();
    bad.extend(pad_to_card(obs, b'X'));
    assert_eq!(
        read_xpt_v5_from_bytes(&bad),
        Err(XptError::UnresolvableRowWidth { offset: prefix.len(), observation_bytes: 80 })
    );
}

#[test]
fn rows_padded_to_a_multiple_of_eight() {
    let mut d = descriptor(true, 8, 1, "N", "", 0);
    d.extend(descriptor(false, 4, 2, "C", "", 8));
    let vars = decode_variables(&d);
    // Width 12, stride 16: the padding of each row is not filler.
    let mut block = Vec::new();
    for i in 0..5 {
        block.extend(ONE);
        block.extend(format!("c{:<3}", i).as_bytes());
        block.extend(b"ZZZZ");
    }
    assert_eq!(block.len(), 80);
    let rows = decode_observations(&vars, &block).unwrap();
    assert_eq!(rows.len(), 5);
    assert_eq!(text(&rows[4].values[1]), "c4");
    // The width itself is tried first.
    let mut block = Vec::new();
    for i in 0..6 {
        block.extend(ONE);
        block.extend(format!("c{:<3}", i).as_bytes());
    }
    block.extend(vec![b' '; 8]);
    let rows = decode_observations(&vars, &block).unwrap();
    assert_eq!(rows.len(), 6);
    // Neither fits.
    let mut block = vec![b'Z'; 80];
    block[0..8].copy_from_slice(&ONE);
    block.push(b'Z');
    assert_eq!(decode_observations(&vars, &block), None);
    // An empty block has no rows; so has one of filler shorter than a row.
    assert_eq!(decode_observations(&vars, &[]), Some(vec![]));
    assert_eq!(decode_observations(&vars, &[0x20; 11]), Some(vec![]));
    assert_eq!(decode_observations(&vec![], &[]), None);
}

#[test]
fn numeric_fields_of_other_widths() {
    // Shorter than eight bytes: zeros are put before it.
    assert_eq!(parse_numeric_value(&[0x10]).map(f64::from_bits), Some(2f64.powi(-308)));
    assert_eq!(parse_numeric_value(&[]), Some(0));
    assert_eq!(parse_numeric_value(&[0, 0, 0]), Some(0));
    // Longer: the first eight bytes count.
    let mut long = ONE.to_vec();
    long.extend(b"rest");
    assert_eq!(parse_numeric_value(&long).map(f64::from_bits), Some(1.0));
    assert_eq!(parse_numeric_value(&MISSING), None);
    assert_eq!(parse_numeric_value(&[b'Q', 0, 0, 0, 0, 0, 0, 0]), None);
    let numeric = parse_namestr_140(&descriptor(true, 8, 1, "N", "", 0));
    let character = parse_namestr_140(&descriptor(false, 8, 1, "C", "", 0));
    assert_eq!(parse_cell(&ONE, &numeric), Cell::Numeric(Some(1.0f64.to_bits())));
    assert_eq!(parse_cell(&MISSING, &numeric), Cell::Numeric(None));
    assert_eq!(parse_cell(b"caf\xE9    ", &character), Cell::Character("caf\u{E9}".into()));
}

#[test]
fn a_banner_inside_a_row_is_data() {
    // Width 24: after one card 8 bytes of a row are open, so a card that
    // starts like a banner belongs to the rows.
    let mut obs = ten_rows("r");
    obs.truncate(80);
    let filler = banner("MEMBER ");
    obs.extend(filler);
    obs.extend(vec![b' '; 80]);
    let mut file = namestr_header("0003");
    file.extend(three_descriptors());
    file.extend(obs_header());
    file.extend(obs);
    let datasets = read_xpt_v5_from_bytes(&file).unwrap();
    assert_eq!(datasets.len(), 1);
    assert_eq!(datasets[0].rows.len(), 10);
}

#[test]
fn decoding_twice_gives_equal_results() {
    let mut file = library_header();
    file.extend(member("FIRST", "0003", ten_rows("a")));
    file.extend(member("SECOND", "0003", ten_rows("b")));
    assert_eq!(read_xpt_v5_from_bytes(&file), read_xpt_v5_from_bytes(&file));
    let broken = &file[..file.len() - 100];
    assert_eq!(read_xpt_v5_from_bytes(broken), read_xpt_v5_from_bytes(broken));
    assert_eq!(XPTParser::parse(&file, None), XPTParser::parse(&file, None));
}

#[test]
fn trailing_bytes_behind_the_last_card_are_not_read() {
    let mut file = member("ONLY", "0003", ten_rows("r"));
    let clean = read_xpt_v5_from_bytes(&file).unwrap();
    file.extend(b"garbage");
    assert_eq!(read_xpt_v5_from_bytes(&file).unwrap(), clean);
}

#[test]
fn too_short_for_a_card() {
    assert_eq!(read_xpt_v5_from_bytes(&[]), Err(XptError::TruncatedInput { offset: 0 }));
    assert_eq!(read_xpt_v5_from_bytes(&[b' '; 79]), Err(XptError::TruncatedInput { offset: 0 }));
    assert_eq!(XPTParser::parse(&[], None), Err(XptError::TruncatedInput { offset: 0 }));
}

#[test]
fn library_header_alone_holds_no_dataset() {
    assert_eq!(read_xpt_v5_from_bytes(&library_header()), Err(XptError::NoDatasetsFound));
    assert_eq!(XPTParser::parse(&library_header(), None), Err(XptError::NoDatasetsFound));
    let mut partial = library_header();
    partial.extend(b"cut");
    assert_eq!(read_xpt_v5_from_bytes(&partial), Err(XptError::NoDatasetsFound));
}

#[test]
fn library_header_cut_short() {
    let lib = library_header();
    assert_eq!(
        read_xpt_v5_from_bytes(&lib[..160]),
        Err(XptError::UnexpectedEndOfFile { expected: Section::Library, offset: 160 })
    );
    assert_eq!(
        read_xpt_v5_from_bytes(&lib[..200]),
        Err(XptError::TruncatedInput { offset: 160 })
    );
}

#[test]
fn end_of_data_inside_a_member() {
    let mut file = library_header();
    file.extend(member_header("M"));
    assert_eq!(
        read_xpt_v5_from_bytes(&file),
        Err(XptError::UnexpectedEndOfFile { expected: Section::Namestr, offset: 560 })
    );
    assert_eq!(
        read_xpt_v5_from_bytes(&file[..400]),
        Err(XptError::UnexpectedEndOfFile { expected: Section::Member, offset: 400 })
    );
    file.extend(dscrptr_header());
    file.extend(namestr_header("0003"));
    file.extend(three_descriptors());
    let end = file.len();
    assert_eq!(
        read_xpt_v5_from_bytes(&file),
        Err(XptError::UnexpectedEndOfFile { expected: Section::Obs, offset: end })
    );
    file.extend(banner("OBS    "));
    assert_eq!(
        read_xpt_v5_from_bytes(&file),
        Err(XptError::UnexpectedEndOfFile { expected: Section::Obs, offset: end + 80 })
    );
    file.extend(b"cut short");
    assert_eq!(read_xpt_v5_from_bytes(&file), Err(XptError::TruncatedInput { offset: end + 80 }));
}

#[test]
fn a_card_that_is_no_banner() {
    let mut file = card("this is not a transport file");
    file.extend(card("at all"));
    assert_eq!(
        read_xpt_v5_from_bytes(&file),
        Err(XptError::MalformedHeader {
            expected: Section::Namestr,
            found_preview: "this is not a transport file".into(),
            offset: 0,
        })
    );
    // The preview is the first 60 bytes.
    let long = vec![b'x'; 160];
    match read_xpt_v5_from_bytes(&long) {
        Err(XptError::MalformedHeader { found_preview, .. }) => {
            assert_eq!(found_preview, "x".repeat(60))
        }
        other => panic!("{:?}", other),
    }
    // An OBS banner where the NAMESTR banner should be.
    let mut file = member_header("M");
    file.extend(obs_header());
    assert_eq!(
        read_xpt_v5_from_bytes(&file),
        Err(XptError::MalformedHeader {
            expected: Section::Namestr,
            found_preview: "HEADER RECORD*******OBS     HEADER RECORD!!!!!!!000000000000".into(),
            offset: 320,
        })
    );
}

#[test]
fn no_descriptor_before_the_obs_banner() {
    let mut file = namestr_header("0000");
    file.extend(obs_header());
    assert_eq!(read_xpt_v5_from_bytes(&file), Err(XptError::NoVariablesDescribed { offset: 160 }));
    // One card is less than a descriptor.
    let mut file = namestr_header("0001");
    file.extend(card("not enough"));
    file.extend(obs_header());
    assert_eq!(read_xpt_v5_from_bytes(&file), Err(XptError::NoVariablesDescribed { offset: 160 }));
    // Zero cards are skipped and do not count.
    let mut file = namestr_header("0001");
    file.extend(vec![0u8; 240]);
    file.extend(obs_header());
    assert_eq!(read_xpt_v5_from_bytes(&file), Err(XptError::NoVariablesDescribed { offset: 400 }));
}

#[test]
fn a_failure_in_a_later_member_fails_the_file() {
    let mut file = library_header();
    file.extend(member("FIRST", "0003", ten_rows("a")));
    file.extend(member_header("SECOND"));
    let end = file.len();
    assert_eq!(
        read_xpt_v5_from_bytes(&file),
        Err(XptError::UnexpectedEndOfFile { expected: Section::Namestr, offset: end })
    );
    // The first member alone still parses.
    let first = XPTParser::parse(&file, None).unwrap();
    assert_eq!(first.title, "FIRST");
    assert_eq!(first.rows.len(), 10);
}

#[test]
fn decode_member_reports_where_it_ends() {
    let mut file = library_header();
    file.extend(member("FIRST", "0003", ten_rows("a")));
    let boundary = file.len();
    file.extend(member("SECOND", "0003", ten_rows("b")));
    let first = decode_member(&file, 240).unwrap();
    assert_eq!(first.end, boundary);
    assert_eq!(first.names, 240 + 320 + 160 + 160);
    let second = decode_member(&file, boundary).unwrap();
    assert_eq!(second.end, file.len());
    assert_eq!(second.rows.len(), 10);
}

#[test]
fn parser_names_the_unnamed_and_titles_the_dataset() {
    let mut d = descriptor(true, 8, 1, "", "no name", 0);
    d.extend(descriptor(false, 8, 2, "GIVEN", "", 8));
    d.extend(descriptor(true, 8, 3, "", "", 16));
    let mut file = namestr_header("0003");
    file.extend(pad_to_card(d, 0));
    file.extend(obs_header());
    file.extend(row(ONE, *b"abcdefgh", "").iter().chain(vec![b' '; 56].iter()).copied().collect::<Vec<u8>>());
    let ds = XPTParser::parse(&file, Some("study/dm.xpt")).unwrap();
    assert_eq!(ds.title, "dm");
    let names: Vec<&str> = ds.variables.iter().map(|v| v.name.as_str()).collect();
    assert_eq!(names, ["VAR1", "GIVEN", "VAR3"]);
    assert_eq!(ds.variables[0].label, "no name");
    assert_eq!(ds.variables[0].var_type, VariableType::Numeric);
    assert_eq!(ds.variables[1].var_type, VariableType::Character);
    assert_eq!(ds.variables[1].length, 8);
    assert_eq!(ds.variables[2].position, 16);
    assert_eq!(ds.rows[0].values[1], Cell::Character("abcdefgh".into()));
    assert_eq!(XPTParser::parse(&file, None).unwrap().title, "XPT Dataset");
    // The name in the header comes before the file name.
    let named = member("CARS", "0003", ten_rows("r"));
    assert_eq!(XPTParser::parse(&named, Some("other.xpt")).unwrap().title, "CARS");
}

#[test]
fn datasets_turn_into_their_output_shape() {
    let file = member("OUT", "0003", ten_rows("r"));
    let ds: Dataset = read_xpt_v5_from_bytes(&file).unwrap().remove(0);
    let rows: Vec<XPTRow> = ds.rows.clone();
    let out = DatasetOut::from_dataset(ds.clone());
    assert_eq!(out.name, "OUT");
    assert_eq!(out.rows, rows);
    assert_eq!(
        out.vars[2],
        VarOut { name: "NAME".into(), label: "a name".into(), length: 8, position: 16, is_char: true }
    );
    assert_eq!(VarOut::from_meta(&ds.vars[0]), out.vars[0]);
}

#[test]
fn parser_overrules_a_wrong_hint() {
    let mut file = namestr_header("0007");
    file.extend(three_descriptors());
    file.extend(obs_header());
    file.extend(ten_rows("r"));
    let ds = XPTParser::parse(&file, None).unwrap();
    assert_eq!(ds.variables.len(), 3);
    assert_eq!(ds.rows.len(), 10);
    assert_eq!(ds.title, "XPT Dataset");
    assert_eq!(XPTParser::parse(&file, Some("a/b.xpt")).unwrap().variables, ds.variables);
    assert_eq!(XPTParser::parse(&file, Some("a/b.xpt")).unwrap().rows, ds.rows);
}

#[test]
fn parsing_twice_gives_equal_results() {
    let named = member("CARS", "0003", ten_rows("r"));
    assert_eq!(XPTParser::parse(&named, Some("x.xpt")), XPTParser::parse(&named, Some("x.xpt")));
    assert_eq!(XPTParser::parse(&named, None), XPTParser::parse(&named, Some("x.xpt")));
    let broken = &named[..200];
    assert!(XPTParser::parse(broken, None).is_err());
    assert_eq!(XPTParser::parse(broken, None), XPTParser::parse(broken, Some("x.xpt")));
}

#[test]
fn every_missing_value_is_an_empty_cell_in_a_kept_row() {
    let mut tags: Vec<u8> = vec![b'.', b'_'];
    tags.extend(b'A'..=b'Z');
    assert_eq!(tags.len(), 28);
    // Two more, so that the rows fill nine cards.
    tags.extend([b'.', b'Z']);
    let mut observations = Vec::new();
    for tag in &tags {
        observations.extend(row(ONE, [*tag, 0, 0, 0, 0, 0, 0, 0], "kept"));
    }
    assert_eq!(observations.len(), 720);
    let file = member("MISS", "0003", observations);
    let ds = read_xpt_v5_from_bytes(&file).unwrap().remove(0);
    assert_eq!(ds.rows.len(), 30);
    for r in &ds.rows {
        assert_eq!(r.values.len(), 3);
        assert_eq!(number(&r.values[0]), Some(1.0));
        assert_eq!(r.values[1], Cell::Numeric(None));
        assert_eq!(text(&r.values[2]), "kept");
    }
}

#[test]
fn members_keep_their_declared_order_and_kinds() {
    let mut file = library_header();
    file.extend(member("FIRST", "0003", ten_rows("a")));
    file.extend(member("SECOND", "0003", ten_rows("b")));
    let datasets = read_xpt_v5_from_bytes(&file).unwrap();
    assert_eq!(datasets.len(), 2);
    assert_eq!(datasets[0].name, "FIRST");
    assert_eq!(datasets[1].name, "SECOND");
    for ds in &datasets {
        let names: Vec<&str> = ds.vars.iter().map(|v| v.name.as_str()).collect();
        assert_eq!(names, ["X", "Y", "NAME"]);
        let kinds: Vec<bool> = ds.vars.iter().map(|v| v.is_char).collect();
        assert_eq!(kinds, [false, false, true]);
        assert_eq!(ds.rows.len(), 10);
        assert!(ds.rows.iter().all(|r| r.values.len() == 3));
    }
}
