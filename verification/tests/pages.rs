use qims_backend::convert::snippets::{page_snippets, PageScan, SNIPPET_LENGTH};

fn texts(items: &[&str]) -> Vec<String> {
    items.iter().map(|s| s.to_string()).collect()
}

/// Reads pages until the scan has enough, `page` giving the text of each.
fn scan(page: fn(u128) -> String) -> (PageScan, u128) {
    let mut scan = PageScan::new();
    let mut last = 0;
    while let Some(n) = scan.next_page() {
        scan.read(&page(n));
        last = n;
    }
    (scan, last)
}

#[test]
fn the_shared_header_is_left_out() {
    let pages = texts(&[
        "ACME Quality Manual Section one begins here",
        "ACME Quality Manual Purpose of this text",
        "ACME Quality Manual",
    ]);
    assert_eq!(page_snippets(pages), texts(&["Section one begins here", "Purpose of this text", ""]));
}

#[test]
fn a_short_shared_beginning_is_no_header() {
    assert_eq!(page_snippets(texts(&["The one", "The two"])), texts(&["The one", "The two"]));
    // Nine shared characters are too few, ten are enough.
    assert_eq!(page_snippets(texts(&["123456789a", "123456789b"])), texts(&["123456789a", "123456789b"]));
    assert_eq!(page_snippets(texts(&["1234567890a", "1234567890b"])), texts(&["a", "b"]));
}

#[test]
fn snippets_are_cut_by_characters() {
    let long = "ü".repeat(200);
    let out = page_snippets(vec![long, "x".to_string()]);
    assert_eq!(out[0].chars().count(), SNIPPET_LENGTH);
    assert_eq!(SNIPPET_LENGTH, 80);
    assert_eq!(out[1], "x");
}

#[test]
fn a_document_with_few_pages_has_no_snippets() {
    assert!(page_snippets(Vec::new()).is_empty());
    assert!(page_snippets(texts(&["only one"])).is_empty());
    assert!(page_snippets(texts(&["only one", "", ""])).is_empty());
    assert!(page_snippets(texts(&["", "only one"])).is_empty());
}

#[test]
fn a_page_of_images_keeps_its_place() {
    let pages = texts(&["first text", "", "third text", ""]);
    assert_eq!(page_snippets(pages), texts(&["first text", "", "third text"]));
}

#[test]
fn two_pages_without_text_end_the_reading() {
    let (read, last) = scan(|n| if n <= 4 { format!(" page\n{n} ") } else { String::new() });
    assert_eq!(last, 6);
    assert_eq!(read.finish(), texts(&["page 2", "page 3", "page 4"]));
}

#[test]
fn one_page_without_text_does_not_end_the_reading() {
    let (read, last) = scan(|n| if n == 3 || n > 5 { " \n".to_string() } else { format!("p{n}") });
    assert_eq!(last, 7);
    assert_eq!(read.finish(), texts(&["p2", "", "p4", "p5"]));
}

#[test]
fn each_page_from_the_second_on_has_a_snippet() {
    let (read, last) = scan(|n| if n <= 120 { format!("{n} is the page") } else { String::new() });
    assert_eq!(last, 122);
    let out = read.finish();
    assert_eq!(out.len(), 119);
    assert_eq!(out[0], "2 is the page");
    assert_eq!(out[98], "100 is the page");
    assert_eq!(out[118], "120 is the page");
}

#[test]
fn nothing_is_taken_behind_the_end() {
    let (mut read, _) = scan(|n| if n <= 3 { format!("p{n}") } else { String::new() });
    read.read("too late");
    assert_eq!(read.next_page(), None);
    assert_eq!(read.finish(), texts(&["p2", "p3"]));
}
