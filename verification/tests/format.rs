use office_oxide::format::DocumentFormat;

#[test]
fn test_from_extension() {
    assert_eq!(DocumentFormat::from_extension("docx"), Some(DocumentFormat::Docx));
    assert_eq!(DocumentFormat::from_extension("XLSX"), Some(DocumentFormat::Xlsx));
    assert_eq!(DocumentFormat::from_extension("pptx"), Some(DocumentFormat::Pptx));
    assert_eq!(DocumentFormat::from_extension("doc"), Some(DocumentFormat::Doc));
    assert_eq!(DocumentFormat::from_extension("XLS"), Some(DocumentFormat::Xls));
    assert_eq!(DocumentFormat::from_extension("ppt"), Some(DocumentFormat::Ppt));
    assert_eq!(DocumentFormat::from_extension("txt"), None);
    assert_eq!(DocumentFormat::from_extension("pdf"), None);
}

/// The legacy template/show/add-in extensions were missed when the
/// OOXML ones were added: a Word 97 template (`.dot`), a PowerPoint
/// show (`.pps`) and an Excel add-in (`.xla`) failed with
/// `unsupported format` although each is byte-for-byte the same
/// container as its `.doc`/`.ppt`/`.xls` sibling.
#[test]
fn test_from_extension_legacy_templates_shows_and_add_ins() {
    for (ext, want) in [
        ("dot", DocumentFormat::Doc),
        ("DOT", DocumentFormat::Doc),
        ("xlt", DocumentFormat::Xls),
        ("xla", DocumentFormat::Xls),
        ("pot", DocumentFormat::Ppt),
        ("pps", DocumentFormat::Ppt),
    ] {
        assert_eq!(DocumentFormat::from_extension(ext), Some(want), "{ext}");
    }
}

/// Macro-enabled and template extensions used to return `None`, so
/// `Document::open("file.docm")` failed with `UnsupportedFormat`
/// before any reader saw the bytes.
#[test]
fn test_from_extension_macro_enabled_and_templates() {
    for ext in ["docm", "dotx", "dotm", "DOCM"] {
        assert_eq!(
            DocumentFormat::from_extension(ext),
            Some(DocumentFormat::Docx),
            "{ext} should map to Docx"
        );
    }
    for ext in ["xlsm", "xltx", "xltm", "xlam", "XLSM"] {
        assert_eq!(
            DocumentFormat::from_extension(ext),
            Some(DocumentFormat::Xlsx),
            "{ext} should map to Xlsx"
        );
    }
    for ext in ["pptm", "potx", "potm", "ppsx", "ppsm", "PPTM"] {
        assert_eq!(
            DocumentFormat::from_extension(ext),
            Some(DocumentFormat::Pptx),
            "{ext} should map to Pptx"
        );
    }
    // Still not a document format.
    assert_eq!(DocumentFormat::from_extension("docz"), None);
    assert_eq!(
        DocumentFormat::from_path("macros/book.xlsm"),
        Some(DocumentFormat::Xlsx)
    );
}

#[test]
fn test_from_path() {
    assert_eq!(DocumentFormat::from_path("report.docx"), Some(DocumentFormat::Docx));
    assert_eq!(
        DocumentFormat::from_path("/tmp/data.xlsx"),
        Some(DocumentFormat::Xlsx)
    );
    assert_eq!(DocumentFormat::from_path("slides.PPTX"), Some(DocumentFormat::Pptx));
    assert_eq!(DocumentFormat::from_path("notes.txt"), None);
    assert_eq!(DocumentFormat::from_path("noext"), None);
}

#[test]
fn extension_round_trips_through_from_extension() {
    for f in [
        DocumentFormat::Docx,
        DocumentFormat::Xlsx,
        DocumentFormat::Pptx,
        DocumentFormat::Doc,
        DocumentFormat::Xls,
        DocumentFormat::Ppt,
    ] {
        assert_eq!(DocumentFormat::from_extension(f.extension()), Some(f));
    }
}

#[test]
fn legacy_formats_upgrade_and_ooxml_do_not() {
    assert_eq!(DocumentFormat::Doc.ooxml_upgrade(), Some(DocumentFormat::Docx));
    assert_eq!(DocumentFormat::Xls.ooxml_upgrade(), Some(DocumentFormat::Xlsx));
    assert_eq!(DocumentFormat::Ppt.ooxml_upgrade(), Some(DocumentFormat::Pptx));
    assert_eq!(DocumentFormat::Docx.ooxml_upgrade(), None);
    assert!(DocumentFormat::Doc.is_legacy());
    assert!(!DocumentFormat::Pptx.is_legacy());
    assert_eq!(
        DocumentFormat::Docx.mime_type(),
        "application/vnd.openxmlformats-officedocument.wordprocessingml.document"
    );
}
