use qims_backend::convert::images::{
    media_order, next_media_step, plan_media, push_image, salvage_image, ImageType, MediaStep,
};
use qims_backend::convert::office::{
    html_exported, images_salvaged, needs_docx, office_converted, unpack_failure, unpacked,
    xhtml_exported, OfficeStep, UnpackError,
};
use qims_backend::convert::page::{page_attributes, page_setup, whole_twips, Length};
use qims_backend::convert::footers::Footers;
use qims_backend::convert::{
    convert, data_dir, mime_for, originals_dir, pdf_converted, run, save_original,
    save_original_at, ConvertParams, Outcome, Pipeline,
};
use qims_backend::error::AppError;

fn params(name: &str) -> ConvertParams {
    ConvertParams { name: name.to_string() }
}

#[test]
fn the_extension_selects_the_tools() {
    for (name, ext, pipeline) in [
        ("policy.docx", "docx", Pipeline::Office),
        ("a.b.DOC", "doc", Pipeline::Office),
        ("x.odt", "odt", Pipeline::Office),
        ("x.Rtf", "rtf", Pipeline::Office),
        ("scan.PDF", "pdf", Pipeline::Pdf),
        ("pdf", "pdf", Pipeline::Pdf),
    ] {
        let c = convert(&params(name), 1).expect("accepted");
        assert_eq!(c.ext, ext);
        assert_eq!(c.pipeline, pipeline);
    }
}

#[test]
fn empty_and_unsupported_files_are_refused() {
    match convert(&params("policy.docx"), 0) {
        Err(AppError::BadRequest(m)) => assert_eq!(m, "empty file"),
        _ => unreachable!(),
    }
    match convert(&params("../x.TXT"), 3) {
        Err(AppError::BadRequest(m)) => {
            assert_eq!(m, "unsupported file type: .txt (use pdf, doc, docx, odt or rtf)")
        }
        _ => unreachable!(),
    }
    assert!(convert(&params("x.docx/../y"), 3).is_err());
    assert!(convert(&params("x.docx."), 3).is_err());
    assert!(convert(&params(""), 3).is_err());
}

#[test]
fn import_extensions_have_their_mime_types() {
    assert_eq!(mime_for("pdf"), "application/pdf");
    assert_eq!(mime_for("doc"), "application/msword");
    assert_eq!(
        mime_for("docx"),
        "application/vnd.openxmlformats-officedocument.wordprocessingml.document"
    );
    assert_eq!(mime_for("odt"), "application/vnd.oasis.opendocument.text");
    assert_eq!(mime_for("rtf"), "application/rtf");
    assert_eq!(mime_for("exe"), "application/octet-stream");
}

#[test]
fn originals_are_kept_below_the_data_directory() {
    assert_eq!(data_dir(None), "data");
    assert_eq!(data_dir(Some("/srv/q")), "/srv/q");
    for dir in ["data", "/srv/q", "/srv/q/", "", "/"] {
        let joined = std::path::Path::new(dir).join("originals");
        assert_eq!(originals_dir(Some(dir)), joined.to_str().expect("text"));
    }
    assert_eq!(originals_dir(None), "data/originals");
}

#[test]
fn originals_are_stored_under_safe_names() {
    let s = save_original_at("policy.docx", "docx", 12, Some(1785476834826430824));
    assert_eq!(s.file, "1785476834826430824-policy.docx");
    assert_eq!(s.name, "policy.docx");
    assert_eq!(s.mime, mime_for("docx"));
    assert_eq!(s.size, 12);
    let s = save_original_at("../Grün & \"x\"\\y.pdf", "pdf", 1, None);
    assert_eq!(s.file, "0-.__Gr_n____x__y.pdf");
    assert!(!s.file.contains('/') && !s.file.contains('\\'));
    assert_eq!(save_original_at("a", "", 0, Some(-5)).file, "-5-a");
}

#[test]
fn stored_names_differ_where_the_times_do() {
    let a = save_original_at("1-x", "pdf", 1, Some(1));
    let b = save_original_at("x", "pdf", 1, Some(11));
    assert_ne!(a.file, b.file);
    // At one time, different flattened names are stored differently.
    let c = save_original_at("y", "pdf", 1, Some(11));
    assert_ne!(b.file, c.file);
}

#[test]
fn no_two_dots_stand_together_in_a_stored_name() {
    for (name, file) in [("a..docx", "7-a._docx"), ("...", "7-.__"), (".a.b.", "7-.a.b."), ("..", "7-._")] {
        assert_eq!(save_original_at(name, "docx", 1, Some(7)).file, file);
    }
}

#[test]
fn the_current_time_stands_before_a_stored_name() {
    let s = save_original("x.pdf", "pdf", 1);
    let (nanos, name) = s.file.split_once('-').expect("two parts");
    assert_eq!(name, "x.pdf");
    // Later than the year 2020.
    assert!(nanos.parse::<u64>().expect("a number") > 1_577_836_800_000_000_000);
}

#[test]
fn failures_of_converters_are_told() {
    let told = |o: Outcome| match run(o) {
        Err(AppError::Internal(m)) => m,
        _ => unreachable!(),
    };
    assert_eq!(told(Outcome::TimedOut), "conversion timed out");
    assert_eq!(told(Outcome::NotStarted("no such file".to_string())), "failed to run converter: no such file");
    assert_eq!(told(Outcome::Failed("oops".to_string())), "converter failed: oops");
    let long = "ä".repeat(400);
    assert_eq!(told(Outcome::Failed(long)), format!("converter failed: {}", "ä".repeat(300)));
    match run(Outcome::Finished("out".to_string())) {
        Ok(out) => assert_eq!(out, "out"),
        Err(_) => unreachable!(),
    }
}

#[test]
fn a_pdf_gives_html_only() {
    let c = pdf_converted("<p>x</p>".to_string());
    assert_eq!(c.html, "<p>x</p>");
    assert!(c.page.is_none() && c.pages.is_empty() && c.footers.is_none());
}

#[test]
fn the_legacy_filter_takes_the_place_of_a_failed_export() {
    assert!(matches!(xhtml_exported(None), OfficeStep::ExportHtml));
    match xhtml_exported(Some("x".to_string())) {
        OfficeStep::Unpack(html) => assert_eq!(html, "x"),
        _ => unreachable!(),
    }
    match html_exported(Some("y".to_string())) {
        Ok(OfficeStep::Unpack(html)) => assert_eq!(html, "y"),
        _ => unreachable!(),
    }
    match html_exported(None) {
        Err(AppError::Internal(m)) => assert_eq!(m, "LibreOffice produced no output"),
        _ => unreachable!(),
    }
}

#[test]
fn images_are_salvaged_only_where_there_are_none() {
    assert!(matches!(unpacked("<p>x".to_string(), true), OfficeStep::SalvageImages(_)));
    assert!(matches!(unpacked("<p><IMG src>".to_string(), true), OfficeStep::ReadParts(_)));
    assert!(matches!(unpacked("<p>x".to_string(), false), OfficeStep::Finish(_)));
}

#[test]
fn salvaged_images_stand_at_the_beginning_of_the_body() {
    let with = |html: &str, tags: Option<&str>| {
        match images_salvaged(html.to_string(), tags.map(|t| t.to_string())) {
            OfficeStep::ReadParts(out) => out,
            _ => unreachable!(),
        }
    };
    assert_eq!(with("<html><BODY class=\"a\"><p>ä</BODY>", Some("<img/>")), "<html><BODY class=\"a\"><img/><p>ä</BODY>");
    assert_eq!(with("é<body>x", Some("T")), "é<body>Tx");
    assert_eq!(with("<p>no page", Some("T")), "<p>no page");
    assert_eq!(with("<body", Some("T")), "<body");
    assert_eq!(with("<body>x", Some("")), "<body>x");
    assert_eq!(with("<body>x", None), "<body>x");
}

#[test]
fn the_answer_holds_what_was_salvaged() {
    let l = Length { px: 1, mm: 1 };
    let page = page_setup(Some(l), Some(l), Some(l), Some(l), Some(l), Some(l));
    let footers = Footers { first: None, default: Some("f".to_string()) };
    let c = office_converted("h".to_string(), Some((page, footers)), vec!["s".to_string()]);
    assert_eq!(c.html, "h");
    assert_eq!(c.pages, vec!["s".to_string()]);
    assert!(c.page.is_some());
    assert_eq!(c.footers.expect("footers").default, Some("f".to_string()));
    let c = office_converted("h".to_string(), None, Vec::new());
    assert!(c.page.is_none() && c.footers.is_none());
}

#[test]
fn only_other_formats_are_converted_before_unpacking() {
    assert!(!needs_docx("docx"));
    assert!(needs_docx("doc"));
    assert!(needs_docx("odt"));
    let e = UnpackError::Conversion(AppError::Internal("x".to_string()));
    assert_eq!(unpack_failure(&e), "docx conversion failed: x");
    let e = UnpackError::Unzip(AppError::NotFound);
    assert_eq!(unpack_failure(&e), "unzip failed: not found");
}

#[test]
fn media_files_are_read_or_rendered_by_their_type() {
    assert_eq!(plan_media("image1.png"), MediaStep::Read(ImageType::Png));
    assert_eq!(plan_media("image1.JPG"), MediaStep::Read(ImageType::Jpeg));
    assert_eq!(plan_media("image1.jpeg"), MediaStep::Read(ImageType::Jpeg));
    assert_eq!(plan_media("a.b.gif"), MediaStep::Read(ImageType::Gif));
    for ext in ["wmf", "emf", "svm", "bmp", "tif", "TIFF"] {
        assert_eq!(plan_media(&format!("image.{ext}")), MediaStep::Render);
    }
    assert_eq!(plan_media("image.svg"), MediaStep::Skip);
    assert_eq!(plan_media(".png"), MediaStep::Skip);
    assert_eq!(plan_media("png"), MediaStep::Skip);
}

#[test]
fn a_rendering_is_read_trimmed_or_not() {
    assert_eq!(next_media_step(MediaStep::Render, false), MediaStep::Skip);
    let trim = next_media_step(MediaStep::Render, true);
    assert_eq!(trim, MediaStep::Trim);
    assert_eq!(next_media_step(trim, true), MediaStep::ReadTrimmed);
    assert_eq!(next_media_step(trim, false), MediaStep::ReadRendered);
    assert_eq!(next_media_step(MediaStep::ReadTrimmed, true), MediaStep::Skip);
}

#[test]
fn images_stand_in_the_order_of_their_names() {
    let names: Vec<String> = ["b.png", "a.png", "B.png", "a.gif"].map(|s| s.to_string()).to_vec();
    assert_eq!(media_order(&names), vec![2, 3, 1, 0]);
}

#[test]
fn images_are_embedded_in_base64() {
    let mut tags = "<hr/>".to_string();
    salvage_image(&mut tags, MediaStep::Read(ImageType::Jpeg), Some(b"Man".to_vec()));
    assert_eq!(tags, "<hr/><p><img src=\"data:image/jpeg;base64,TWFu\"/></p>");
    let mut tags = String::new();
    salvage_image(&mut tags, MediaStep::ReadTrimmed, Some(vec![0xfb, 0xff]));
    assert_eq!(tags, "<p><img src=\"data:image/png;base64,+/8=\"/></p>");
    let mut tags = String::new();
    salvage_image(&mut tags, MediaStep::Read(ImageType::Gif), Some(Vec::new()));
    assert_eq!(tags, "<p><img src=\"data:image/gif;base64,\"/></p>");
    let mut tags = String::new();
    salvage_image(&mut tags, MediaStep::Read(ImageType::Gif), Some(b"any carnal pleasure.\x00\xff".to_vec()));
    assert_eq!(tags, "<p><img src=\"data:image/gif;base64,YW55IGNhcm5hbCBwbGVhc3VyZS4A/w==\"/></p>");
}

#[test]
fn an_unreadable_image_loses_no_other() {
    let mut tags = String::new();
    push_image(&mut tags, ImageType::Png, "AA==");
    let one = tags.clone();
    salvage_image(&mut tags, MediaStep::Read(ImageType::Png), None);
    salvage_image(&mut tags, MediaStep::Skip, Some(vec![1]));
    assert_eq!(tags, one);
    assert_eq!(one, "<p><img src=\"data:image/png;base64,AA==\"/></p>");
}

const SECTION: &str = "<w:sectPr><w:pgSz w:w=\"11906\" w:h=\"16838\"/><w:pgMar w:top=\"1417\" w:right=\"1134\" w:bottom=\"1134.5\" w:left=\"x\"/></w:sectPr>";

#[test]
fn page_attributes_are_read_from_the_section() {
    let a = page_attributes(SECTION).expect("all six");
    assert_eq!(a.width, "11906");
    assert_eq!(a.height, "16838");
    assert_eq!(a.top, "1417");
    assert_eq!(a.right, "1134");
    assert_eq!(a.bottom, "1134.5");
    assert_eq!(a.left, "x");
    assert!(page_attributes("<w:pgSz w:w=\"1\" w:h=\"2\"/>").is_none());
    assert!(page_attributes("").is_none());
    assert!(page_attributes("<w:pgSz w:w=\"1\" w:h=\"2\"").is_none());
}

#[test]
fn twips_become_pixels_and_millimetres() {
    // A4 paper.
    assert_eq!(whole_twips("11906"), Some(Length { px: 794, mm: 210 }));
    assert_eq!(whole_twips("16838"), Some(Length { px: 1123, mm: 297 }));
    assert_eq!(whole_twips("1440"), Some(Length { px: 96, mm: 25 }));
    assert_eq!(whole_twips("0"), Some(Length { px: 0, mm: 0 }));
    assert_eq!(whole_twips("1134.5"), None);
    assert_eq!(whole_twips("-720"), None);
    assert_eq!(whole_twips(""), None);
    for t in 0u32..5000 {
        let length = whole_twips(&format!("{t}")).expect("a number");
        assert_eq!(length.px, (t as f64 / 15.0).round() as i64);
        assert_eq!(length.mm, (t as f64 * 25.4 / 1440.0).round() as i64);
    }
}

#[test]
fn a_page_setup_needs_all_six_lengths() {
    let l = |px: i64| Some(Length { px, mm: 0 });
    let p = page_setup(l(1), l(2), l(3), l(4), l(5), l(6)).expect("complete");
    let px = [p.width.px, p.height.px, p.top.px, p.right.px, p.bottom.px, p.left.px];
    assert_eq!(px, [1, 2, 3, 4, 5, 6]);
    assert!(page_setup(l(1), None, l(3), l(4), l(5), l(6)).is_none());
    assert!(page_setup(l(1), l(2), l(3), l(4), l(5), None).is_none());
}
