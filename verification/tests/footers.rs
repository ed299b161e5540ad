use qims_backend::convert::footers::{
    footer_file_html, footer_files, footer_paragraphs, footer_references,
    footers_without_references, parse_footer_paragraph, salvage_footers_classified, Align,
    FontSize, FooterParagraph, FoundFooter, Salvage,
};
use qims_backend::convert::xml::{has_bold, quoted_after, split_tags};

fn texts(items: &[&str]) -> Vec<String> {
    items.iter().map(|s| s.to_string()).collect()
}

fn points(p: &FooterParagraph) -> &str {
    match &p.size {
        FontSize::Points(t) => t.as_str(),
        FontSize::Raw(_) => unreachable!(),
    }
}

#[test]
fn elements_are_split_off_in_order() {
    let xml = "<w:p>a</w:p>x<w:p w:id=\"1\">b</w:p><w:pPr>c</w:pPr>";
    assert_eq!(split_tags(xml, "w:p"), texts(&["<w:p>a</w:p>", "<w:p w:id=\"1\">b</w:p>"]));
    assert_eq!(split_tags("", "w:p"), texts(&[]));
}

#[test]
fn an_element_that_closes_itself_swallows_no_other() {
    let xml = "<w:t xml:space=\"preserve\"/><w:t>b</w:t>";
    assert_eq!(split_tags(xml, "w:t"), texts(&["<w:t xml:space=\"preserve\"/>", "<w:t>b</w:t>"]));
}

#[test]
fn an_element_without_an_end_stops_the_reading() {
    assert_eq!(split_tags("<w:t>a</w:t><w:t>b", "w:t"), texts(&["<w:t>a</w:t>"]));
    assert_eq!(split_tags("<w:t ", "w:t"), texts(&[]));
}

#[test]
fn quoted_values_are_read_behind_their_key() {
    let s: Vec<char> = "a x=\"1\" x=\"2\"".chars().collect();
    assert_eq!(quoted_after(&s, "x=\""), Some("1".to_string()));
    assert_eq!(quoted_after(&s, "y=\""), None);
    let open: Vec<char> = "x=\"1".chars().collect();
    assert_eq!(quoted_after(&open, "x=\""), None);
}

#[test]
fn bold_is_explicit() {
    assert!(has_bold("<w:b/>"));
    assert!(has_bold("<w:b>"));
    assert!(has_bold("<w:b w:val=\"1\"/>"));
    assert!(!has_bold("<w:b w:val=\"0\"/>"));
    assert!(!has_bold("<w:b w:val=\"false\"/>"));
    assert!(!has_bold("<w:b w:val=\"none\"/>"));
    assert!(!has_bold("<w:bCs/><w:bdr w:x=\"1\"/>"));
    assert!(has_bold("<w:b w:val=\"0\"/><w:bCs/><w:b/>"));
    assert!(!has_bold("<w:b w:val=\"1\""));
    assert!(!has_bold("<w:b"));
    assert!(!has_bold(""));
}

#[test]
fn a_paragraph_gives_its_text_and_formatting() {
    let p = "<w:p><w:pPr><w:jc w:val=\"center\"/></w:pPr><w:r><w:rPr><w:b/><w:sz w:val=\"15\"/></w:rPr><w:t xml:space=\"preserve\"> Copyright </w:t><w:t xml:space=\"preserve\"/><w:t>2024 &amp; on </w:t></w:r></w:p>";
    let f = parse_footer_paragraph(p).expect("text");
    assert_eq!(f.text, "Copyright 2024 &amp; on");
    assert!(f.bold);
    assert_eq!(f.align, Some(Align::Center));
    assert_eq!(points(&f), "7.5");
}

#[test]
fn alignments_are_recognised() {
    let align = |value: &str| {
        parse_footer_paragraph(&format!("<w:jc w:val=\"{value}\"/><w:t>x</w:t>")).expect("text").align
    };
    assert_eq!(align("center"), Some(Align::Center));
    assert_eq!(align("end"), Some(Align::Right));
    assert_eq!(align("right"), Some(Align::Right));
    assert_eq!(align("both"), Some(Align::Justify));
    assert_eq!(align("left"), None);
}

#[test]
fn sizes_are_in_half_points() {
    let size = |value: &str| {
        parse_footer_paragraph(&format!("<w:sz w:val=\"{value}\"/><w:t>x</w:t>")).expect("text").size
    };
    for (value, expected) in [("16", "8"), ("17", "8.5"), ("0", "0"), ("1", "0.5"), ("000021", "10.5")] {
        match size(value) {
            FontSize::Points(t) => {
                assert_eq!(t, expected);
                assert_eq!(t, format!("{}", value.parse::<f32>().expect("a number") / 2.0));
            }
            FontSize::Raw(_) => unreachable!(),
        }
    }
    match size("17.5") {
        FontSize::Raw(t) => assert_eq!(t, "17.5"),
        FontSize::Points(_) => unreachable!(),
    }
    assert_eq!(points(&parse_footer_paragraph("<w:t>x</w:t>").expect("text")), "8");
}

#[test]
fn no_markup_comes_from_a_footer() {
    let f = parse_footer_paragraph("<w:t><![CDATA[<script>x</script>]]></w:t>").expect("text");
    assert_eq!(f.text, "&lt;![CDATA[&lt;script&gt;x&lt;/script&gt;]]&gt;");
    assert!(!f.text.contains('<') && !f.text.contains('>'));
}

#[test]
fn page_numbers_and_empty_paragraphs_are_dropped() {
    assert!(parse_footer_paragraph("<w:t>Page 2 of 6</w:t>").is_none());
    assert!(parse_footer_paragraph("<w:t> PAGE 2</w:t><w:t> of 6 </w:t>").is_none());
    assert!(parse_footer_paragraph("<w:t>Page 2/6</w:t>").is_some());
    assert!(parse_footer_paragraph("<w:t>Page 2 of 6.</w:t>").is_some());
    assert!(parse_footer_paragraph("<w:t>Page\u{a0}12\tof  345</w:t>").is_none());
    assert!(parse_footer_paragraph("<w:t>Page ii of vi</w:t>").is_none());
    assert!(parse_footer_paragraph("<w:t>PAGE XIV OF 20</w:t>").is_none());
    assert!(parse_footer_paragraph("<w:t>Page 2 of 6 pages</w:t>").is_none());
    assert!(parse_footer_paragraph("<w:t>Page 1 of 1 page</w:t>").is_none());
    assert!(parse_footer_paragraph("<w:t>Page iiii of vi</w:t>").is_some());
    assert!(parse_footer_paragraph("<w:t>Page mix of lilac</w:t>").is_some());
    assert!(parse_footer_paragraph("<w:t>Page 2 of 6 labels</w:t>").is_some());
    assert!(parse_footer_paragraph("<w:t>Page two of six</w:t>").is_some());
    assert!(parse_footer_paragraph("<w:t> \u{a0} </w:t>").is_none());
    assert!(parse_footer_paragraph("<w:r/>").is_none());
}

#[test]
fn a_paragraph_that_only_reads_like_a_page_number_is_kept() {
    let f = parse_footer_paragraph("<w:p><w:r><w:t>Page layout of labels</w:t></w:r></w:p>").expect("text");
    assert_eq!(f.text, "Page layout of labels");
    assert!(!f.bold);
    assert_eq!(f.align, None);
    assert_eq!(points(&f), "8");
}

#[test]
fn a_text_is_bold_where_one_of_its_parts_is() {
    let parts = [
        "<w:b/>",
        "<w:b w:val=\"0\"/>",
        "<w:b w:val=\"1\"/>",
        "<w:bCs/>",
        "<w:t>w:b</w:t>",
        "",
        "<w:b >",
        "w:b/>",
    ];
    for p in parts {
        for q in parts {
            assert_eq!(has_bold(&format!("{p}{q}")), has_bold(p) || has_bold(q));
        }
    }
}

#[test]
fn a_footer_part_becomes_html() {
    let xml = "<w:ftr><w:p><w:jc w:val=\"right\"/><w:t>A</w:t></w:p><w:p><w:t>Page 1 of 2</w:t></w:p><w:p><w:b/><w:sz w:val=\"20\"/><w:t>B</w:t></w:p></w:ftr>";
    let ps = footer_paragraphs(xml);
    assert_eq!(ps.len(), 2);
    assert_eq!(
        footer_file_html(&ps),
        Some("<p align=\"right\" style=\"font-size: 8pt\">A</p><p style=\"font-size: 10pt\"><b>B</b></p>".to_string())
    );
    assert_eq!(footer_file_html(&footer_paragraphs("<w:p><w:t> </w:t></w:p>")), None);
}

#[test]
fn a_size_that_is_no_number_counts_as_eight_points() {
    let ps = footer_paragraphs("<w:p><w:sz w:val=\"big\"/><w:t>A</w:t></w:p>");
    assert_eq!(footer_file_html(&ps), Some("<p style=\"font-size: 8pt\">A</p>".to_string()));
}

const RELS: &str = "<Relationships><Relationship Id=\"rId1\" Type=\"http://x/relationships/header\" Target=\"header1.xml\"/><Relationship Id=\"rId2\" Type=\"http://x/relationships/footer\" Target=\"//footer2.xml\"/><Relationship Id=\"rId3\" Type=\"http://x/relationships/footer\" Target=\"footer3.xml\"/></Relationships>";

#[test]
fn references_lead_to_footer_parts() {
    let doc = "<w:footerReference w:type=\"first\" r:id=\"rId2\"/><w:footerReference r:id=\"rId3\" w:type=\"default\"/><w:footerReference w:type=\"even\" r:id=\"rId1\"/><w:footerReference w:type=\"even\" r:id=\"rId9\"/><w:footerReference w:type=\"even\"/>";
    let refs: Vec<(String, String)> =
        footer_references(doc, RELS).into_iter().map(|r| (r.kind, r.target)).collect();
    assert_eq!(
        refs,
        vec![
            ("first".to_string(), "footer2.xml".to_string()),
            ("default".to_string(), "footer3.xml".to_string()),
        ]
    );
    assert!(footer_references("<w:footerReference w:type=\"first\" r:id=\"rId2\"", RELS).is_empty());
    assert!(footer_references(doc, "").is_empty());
}

fn found(items: &[(&str, Option<&str>)]) -> Vec<FoundFooter> {
    items
        .iter()
        .map(|(kind, html)| FoundFooter {
            kind: kind.to_string(),
            html: html.map(|h| h.to_string()),
        })
        .collect()
}

#[test]
fn footers_are_classified_by_page() {
    let items = found(&[
        ("first", None),
        ("first", Some("F")),
        ("first", Some("G")),
        ("even", Some("E")),
        ("default", Some("D")),
        ("other", Some("O")),
    ]);
    match salvage_footers_classified(items) {
        Salvage::Found(f) => {
            assert_eq!(f.first, Some("F".to_string()));
            assert_eq!(f.default, Some("D".to_string()));
        }
        Salvage::SearchFolder => unreachable!(),
    }
}

#[test]
fn the_even_footer_counts_without_a_default() {
    match salvage_footers_classified(found(&[("even", Some("E")), ("default", None)])) {
        Salvage::Found(f) => {
            assert_eq!(f.first, None);
            assert_eq!(f.default, Some("E".to_string()));
        }
        Salvage::SearchFolder => unreachable!(),
    }
}

#[test]
fn without_usable_references_the_folder_is_searched() {
    assert!(matches!(salvage_footers_classified(Vec::new()), Salvage::SearchFolder));
    assert!(matches!(
        salvage_footers_classified(found(&[("other", Some("O")), ("first", None)])),
        Salvage::SearchFolder
    ));
}

#[test]
fn footer_files_are_ordered_by_their_number() {
    let names = texts(&[
        "footer10.xml",
        "document.xml",
        "footer2.xml",
        "footer.xml",
        "footer99999999999.xml",
        "footer2b.xml",
        "footer1.xml.rels",
        "my_footer1.xml",
    ]);
    assert_eq!(
        footer_files(&names),
        texts(&["footer.xml", "footer99999999999.xml", "footer2.xml", "footer2b.xml", "footer10.xml"])
    );
}

#[test]
fn each_different_footer_is_kept_once() {
    let html = |s: &str| Some(s.to_string());
    let f = footers_without_references(vec![html("A"), None, html("B"), html("A"), html("B"), html("C")]);
    assert_eq!(f.first, None);
    assert_eq!(f.default, Some("ABC".to_string()));
    assert_eq!(footers_without_references(vec![None, None]).default, None);
    assert_eq!(footers_without_references(Vec::new()).default, None);
}
