use fast_xbrl_parser::parser::xml::{
    dimension_rows, dimension_table, fact_table, parse_xml_to_facts, try_parse_xml_to_facts,
    xml_is_readable, EdgarUrl, FactItem, FactTableRow, XBRLFiling,
};

const FILING: &str = r#"<?xml version="1.0" encoding="UTF-8"?>
<xbrl xmlns="http://www.xbrl.org/2003/instance"
      xmlns:us-gaap="http://fasb.org/us-gaap/2021"
      xmlns:dei="http://xbrl.sec.gov/dei/2021"
      xmlns:xbrldi="http://xbrl.org/2006/xbrldi"
      xmlns:iso4217="http://www.xbrl.org/2003/iso4217">
  <context id="c1">
    <entity>
      <identifier scheme="http://www.sec.gov/CIK">0001326380</identifier>
      <segment>
        <xbrldi:explicitMember dimension="us-gaap:StatementClassOfStockAxis">us-gaap:CommonStockMember</xbrldi:explicitMember>
      </segment>
    </entity>
    <period>
      <startDate>2021-01-31</startDate>
      <endDate>2021-10-30</endDate>
    </period>
  </context>
  <context id="c2">
    <entity>
      <identifier scheme="http://www.sec.gov/CIK">0001326380</identifier>
    </entity>
    <period>
      <instant>2021-10-30</instant>
    </period>
  </context>
  <unit id="usd">
    <measure>iso4217:USD</measure>
  </unit>
  <unit id="usdPerShare">
    <divide>
      <unitNumerator><measure>iso4217:USD</measure></unitNumerator>
      <unitDenominator><measure>shares</measure></unitDenominator>
    </divide>
  </unit>
  <dei:DocumentType contextRef="c2" id="d1">10-Q</dei:DocumentType>
  <us-gaap:Revenues id="f1" contextRef="c1" unitRef="usd" decimals="-6">1000000</us-gaap:Revenues>
  <us-gaap:EarningsPerShareBasic contextRef="c2" unitRef="usdPerShare" decimals="2">-0.12</us-gaap:EarningsPerShareBasic>
  <us-gaap:Unknown contextRef="c9" unitRef="eur">5</us-gaap:Unknown>
</xbrl>
"#;

#[test]
fn filing_facts_in_document_order() {
    let facts = parse_xml_to_facts(FILING.to_string());
    let names: Vec<&str> = facts.iter().map(|f| f.name.as_str()).collect();
    assert_eq!(names, vec!["DocumentType", "Revenues", "EarningsPerShareBasic", "Unknown"]);
}

#[test]
fn fact_fields_are_read() {
    let facts = parse_xml_to_facts(FILING.to_string());
    let revenues = &facts[1];
    assert_eq!(revenues.id, "f1");
    assert_eq!(revenues.prefix, "us-gaap");
    assert_eq!(revenues.value, "1000000");
    assert_eq!(revenues.decimals, "-6");
    assert_eq!(revenues.context_ref.as_deref(), Some("c1"));
    assert_eq!(revenues.unit_ref.as_deref(), Some("usd"));
    let doc_type = &facts[0];
    assert_eq!(doc_type.prefix, "dei");
    assert_eq!(doc_type.id, "d1");
    assert_eq!(doc_type.decimals, "");
    assert_eq!(doc_type.unit_ref, None);
}

#[test]
fn fact_units_come_from_unit_ref() {
    let facts = parse_xml_to_facts(FILING.to_string());
    let units: Vec<(&str, &str)> =
        facts[1].units.iter().map(|u| (u.unit_type.as_str(), u.unit_value.as_str())).collect();
    assert_eq!(units, vec![("unit", "iso4217:USD")]);
    let eps: Vec<(&str, &str)> =
        facts[2].units.iter().map(|u| (u.unit_type.as_str(), u.unit_value.as_str())).collect();
    assert_eq!(eps, vec![("unitNumerator", "iso4217:USD"), ("unitDenominator", "shares")]);
    assert!(facts[0].units.is_empty());
    assert!(facts[3].units.is_empty());
}

#[test]
fn fact_periods_and_dimensions_come_from_context_ref() {
    let facts = parse_xml_to_facts(FILING.to_string());
    let periods: Vec<(&str, &str)> = facts[1]
        .periods
        .iter()
        .map(|p| (p.period_type.as_str(), p.period_value.as_str()))
        .collect();
    assert_eq!(periods, vec![("startDate", "2021-01-31"), ("endDate", "2021-10-30")]);
    assert_eq!(facts[1].dimensions.len(), 1);
    let d = &facts[1].dimensions[0];
    assert_eq!(d.key_ns, "us-gaap");
    assert_eq!(d.key_value, "StatementClassOfStockAxis");
    assert_eq!(d.member_ns, "us-gaap");
    assert_eq!(d.member_value, "CommonStockMember");
    let instant: Vec<(&str, &str)> = facts[0]
        .periods
        .iter()
        .map(|p| (p.period_type.as_str(), p.period_value.as_str()))
        .collect();
    assert_eq!(instant, vec![("instant", "2021-10-30")]);
    assert!(facts[0].dimensions.is_empty());
    assert!(facts[3].periods.is_empty());
    assert!(facts[3].dimensions.is_empty());
}

#[test]
fn elements_without_namespace_are_not_facts() {
    let xml = "<xbrl><plain>1</plain><a:Fact xmlns:a=\"urn:a\">2</a:Fact></xbrl>";
    let facts = parse_xml_to_facts(xml.to_string());
    assert_eq!(facts.len(), 1);
    assert_eq!(facts[0].name, "Fact");
    assert_eq!(facts[0].prefix, "a");
    assert_eq!(facts[0].value, "2");
    assert_eq!(facts[0].id, "");
    assert_eq!(facts[0].context_ref, None);
}

#[test]
fn white_space_in_values_is_collapsed() {
    let xml = "<x:r xmlns:x=\"urn:x\"><x:Note>two\n\n   lines\there</x:Note></x:r>";
    let facts = parse_xml_to_facts(xml.to_string());
    assert_eq!(facts.len(), 1);
    assert_eq!(facts[0].value, "two lines here");
}

#[test]
fn units_of_repeated_ids_are_joined() {
    let xml = "<r xmlns=\"urn:i\" xmlns:f=\"urn:f\"><unit id=\"u\"><measure>a</measure></unit>\
               <unit id=\"u\"><measure>b</measure></unit><f:V unitRef=\"u\">1</f:V></r>";
    let facts = parse_xml_to_facts(xml.to_string());
    assert_eq!(facts.len(), 1);
    let values: Vec<&str> = facts[0].units.iter().map(|u| u.unit_value.as_str()).collect();
    assert_eq!(values, vec!["a", "b"]);
}

#[test]
fn malformed_xml_is_not_readable() {
    assert!(!xml_is_readable("<xbrl><unclosed></xbrl>"));
    assert!(try_parse_xml_to_facts("<xbrl><unclosed></xbrl>".to_string()).is_none());
    assert!(try_parse_xml_to_facts("not xml at all".to_string()).is_none());
}

#[test]
fn member_without_colon_is_not_readable() {
    let xml = "<r xmlns=\"urn:i\" xmlns:m=\"urn:m\"><context id=\"c\"><entity><segment>\
               <m:explicitMember dimension=\"NoColon\">a:b</m:explicitMember></segment></entity></context></r>";
    assert!(!xml_is_readable(xml));
    assert!(try_parse_xml_to_facts(xml.to_string()).is_none());
    let ok = xml.replace("NoColon", "ns:Axis");
    assert!(xml_is_readable(&ok));
    assert_eq!(try_parse_xml_to_facts(ok).map(|f| f.len()), Some(0));
}

#[test]
fn readable_filing_is_read_by_try() {
    assert!(xml_is_readable(FILING));
    let facts = try_parse_xml_to_facts(FILING.to_string()).expect("readable");
    assert_eq!(facts.len(), 4);
}

fn url_data() -> EdgarUrl {
    EdgarUrl {
        unique_id: "1326380-=-000132638021000129".to_string(),
        cik: 1326380,
        cik_padded: "0001326380".to_string(),
        accession_number: "000132638021000129".to_string(),
        raw_url: "https://www.sec.gov/Archives/edgar/data/1326380/000132638021000129/gme-20211030_htm.xml"
            .to_string(),
    }
}

#[test]
fn filing_carries_url_data_and_counts_facts() {
    let filing = XBRLFiling::parse(FILING.to_string(), url_data());
    assert_eq!(filing.id, "1326380-=-000132638021000129");
    assert_eq!(filing.cik, 1326380);
    assert_eq!(filing.cik_padded, "0001326380");
    assert_eq!(filing.accession_number, "000132638021000129");
    assert!(filing.raw_url.ends_with("gme-20211030_htm.xml"));
    assert_eq!(filing.num_facts, 4);
    assert_eq!(filing.facts.len(), 4);
}

#[test]
fn filing_try_parse_refuses_bad_xml() {
    assert!(XBRLFiling::try_parse("<a></b>".to_string(), url_data()).is_none());
    let filing = XBRLFiling::try_parse(FILING.to_string(), url_data()).expect("readable");
    assert_eq!(filing.num_facts, 4);
}

#[test]
fn default_fact_is_empty() {
    let f = FactItem::default();
    assert_eq!(f.id, "");
    assert_eq!(f.prefix, "");
    assert_eq!(f.name, "");
    assert_eq!(f.value, "");
    assert_eq!(f.decimals, "");
    assert!(f.context_ref.is_none());
    assert!(f.unit_ref.is_none());
    assert!(f.dimensions.is_empty());
    assert!(f.units.is_empty());
    assert!(f.periods.is_empty());
}

fn summary(facts: &[FactItem]) -> Vec<String> {
    facts
        .iter()
        .map(|f| {
            format!(
                "{}|{}|{}|{}|{:?}|{:?}|{:?}",
                f.name,
                f.value,
                f.prefix,
                f.id,
                f.units.iter().map(|u| (u.unit_type.clone(), u.unit_value.clone())).collect::<Vec<_>>(),
                f.periods.iter().map(|p| (p.period_type.clone(), p.period_value.clone())).collect::<Vec<_>>(),
                f.dimensions.iter().map(|d| (d.key_value.clone(), d.member_value.clone())).collect::<Vec<_>>(),
            )
        })
        .collect()
}

#[test]
fn other_white_space_runs_give_the_same_facts() {
    let reformatted = FILING.replace("\n  ", "\t\r\n \u{a0}").replace("  ", "\u{2003}");
    assert_ne!(reformatted, FILING);
    let a = parse_xml_to_facts(FILING.to_string());
    let b = parse_xml_to_facts(reformatted);
    assert_eq!(summary(&a), summary(&b));
}

#[test]
fn tables_after_facts_are_found() {
    let before = "<r xmlns=\"urn:i\" xmlns:f=\"urn:f\"><unit id=\"u\"><measure>a</measure></unit>\
                  <context id=\"c\"><period><instant>2021</instant></period></context>\
                  <f:V unitRef=\"u\" contextRef=\"c\">1</f:V></r>";
    let after = "<r xmlns=\"urn:i\" xmlns:f=\"urn:f\"><f:V unitRef=\"u\" contextRef=\"c\">1</f:V>\
                 <context id=\"c\"><period><instant>2021</instant></period></context>\
                 <unit id=\"u\"><measure>a</measure></unit></r>";
    let a = parse_xml_to_facts(before.to_string());
    let b = parse_xml_to_facts(after.to_string());
    assert_eq!(summary(&a), summary(&b));
    assert_eq!(b[0].units.len(), 1);
    assert_eq!(b[0].periods.len(), 1);
}

#[test]
fn facts_as_table_rows() {
    let facts = parse_xml_to_facts(FILING.to_string());
    let rows = fact_table(&facts);
    assert_eq!(rows.len(), 4);
    let r: &FactTableRow = &rows[1];
    assert_eq!(r.id, "f1");
    assert_eq!(r.name, "Revenues");
    assert_eq!(r.value, "1000000");
    assert_eq!(r.context_ref.as_deref(), Some("c1"));
    assert_eq!(r.unit_ref.as_deref(), Some("usd"));
    let dims = dimension_table(&facts);
    assert_eq!(dims.len(), 1);
    assert_eq!(dims[0].fact_id, "f1");
    assert_eq!(dims[0].key_value, "StatementClassOfStockAxis");
    assert_eq!(dims[0].member_value, "CommonStockMember");
    assert!(dimension_rows(&facts[0]).is_empty());
}
