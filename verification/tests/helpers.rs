use fast_xbrl_parser::helpers::input::{
    details_are_readable, gen_ua, input_cuts_are_ok, is_no_email, Input, InputDetails, InputType,
};
use fast_xbrl_parser::helpers::sanitize::{html, text_from_nodes};

const GME: &str = "https://www.sec.gov/Archives/edgar/data/1326380/000132638021000129/gme-20211030_htm.xml";

#[test]
fn user_agent_from_email() {
    assert_eq!(gen_ua("john.doe@example.com".to_string()), "john.doe - john.doe@example.com");
    assert_eq!(gen_ua("noat".to_string()), "noat - noat");
    assert_eq!(gen_ua("a@b@c".to_string()), "a - a@b@c");
}

#[test]
fn placeholder_email_is_recognised() {
    assert!(is_no_email("no_email"));
    assert!(!is_no_email("no_email2"));
}

#[test]
fn edgar_address_is_remote_and_valid() {
    let input = Input::parse_input(GME.to_string(), true, false);
    assert_eq!(input.input, GME);
    assert_eq!(input.input_type, InputType::Remote);
    assert!(input.valid);
}

#[test]
fn address_with_other_prefix_is_invalid() {
    let url = "http://www.sec.gov/Archives/edgar/data/1326380/0001/gme.xml";
    let input = Input::parse_input(url.to_string(), false, true);
    assert_eq!(input.input_type, InputType::Remote);
    assert!(!input.valid);
    let json = "https://www.sec.gov/Archives/edgar/data/1326380/0001/gme.json";
    let input = Input::parse_input(json.to_string(), false, false);
    assert!(!input.valid);
}

#[test]
fn local_path_needs_file_and_xml_suffix() {
    let ok = Input::parse_input("data/filing.xml".to_string(), false, true);
    assert_eq!(ok.input_type, InputType::Local);
    assert!(ok.valid);
    let missing = Input::parse_input("data/filing.xml".to_string(), false, false);
    assert!(!missing.valid);
    let json = Input::parse_input("data/filing.json".to_string(), false, true);
    assert!(!json.valid);
}

#[test]
fn remote_details_hold_padded_cik_and_accession() {
    let details = Input::new(GME.to_string(), false);
    assert_eq!(details.raw_input, GME);
    assert_eq!(details.xml_name, "gme-20211030_htm");
    assert_eq!(details.input_type, InputType::Remote);
    assert_eq!(details.cik.as_deref(), Some("0001326380"));
    assert_eq!(details.accession_number.as_deref(), Some("000132638021000129"));
}

#[test]
fn local_details_have_no_cik() {
    let input = Input { input: "C:\\files\\report.v2.xml".to_string(), input_type: InputType::Local, valid: true };
    let details = InputDetails::new(input);
    assert_eq!(details.xml_name, "v2");
    assert_eq!(details.input_type, InputType::Local);
    assert!(details.cik.is_none());
    assert!(details.accession_number.is_none());
}

#[test]
fn every_xml_is_removed_from_the_name() {
    let input = Input { input: "dir/a.xmlb.xml".to_string(), input_type: InputType::Local, valid: true };
    assert_eq!(InputDetails::new(input).xml_name, "ab");
}

#[test]
fn cik_with_many_digits_is_not_cut() {
    let url = "https://www.sec.gov/Archives/edgar/data/12345678901/0002/x.xml";
    let details = Input::new(url.to_string(), false);
    assert_eq!(details.cik.as_deref(), Some("12345678901"));
    assert_eq!(details.accession_number.as_deref(), Some("0002"));
    assert_eq!(details.xml_name, "x");
}

#[test]
fn cik_leading_zeros_and_plus_are_read() {
    let url = "https://www.sec.gov/Archives/edgar/data/+0042/0003/y.xml";
    let details = Input::new(url.to_string(), false);
    assert_eq!(details.cik.as_deref(), Some("0000000042"));
}

#[test]
fn plain_text_white_space_is_collapsed() {
    assert_eq!(html("Hello   World\n".to_string()), "Hello World ");
    assert_eq!(html("a\t\t b".to_string()), "a b");
    assert_eq!(html("".to_string()), "");
}

#[test]
fn non_ascii_becomes_space() {
    assert_eq!(html("Caf\u{e9} au lait".to_string()), "Caf au lait");
    assert_eq!(html("x\u{a0}\u{a0}y".to_string()), "x y");
}

#[test]
fn markup_is_reduced_to_its_text() {
    assert_eq!(html("<p>Hello</p><p>World</p>".to_string()), "Hello World");
    assert_eq!(html("<b>Net</b>   income".to_string()), "Net income");
}

#[test]
fn text_nodes_are_joined_and_tidied() {
    let nodes = vec!["a ".to_string(), " b".to_string(), "c".to_string()];
    assert_eq!(text_from_nodes(nodes), "a b c");
    assert_eq!(text_from_nodes(Vec::new()), "");
}

#[test]
fn input_cut_checks() {
    assert!(input_cuts_are_ok(GME));
    assert!(input_cuts_are_ok("a.xml"));
    assert!(!input_cuts_are_ok("abc"));
    assert!(!input_cuts_are_ok("sec.gov/short"));
    assert!(!input_cuts_are_ok("é.xml".trim_end_matches("xml")));
    assert!(details_are_readable(GME));
    assert!(!details_are_readable("https://www.sec.gov/Archives/edgar/data/x/y/z.xml"));
    assert!(!details_are_readable("a/b/c"));
}
