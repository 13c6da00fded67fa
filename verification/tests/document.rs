use semantic_index::document::{strategy_for, strategy_for_lowered, Document, ExtractionStrategy};

#[test]
fn pdf_is_read_as_pdf() {
    assert_eq!(strategy_for("pdf"), Some(ExtractionStrategy::Pdf));
    assert_eq!(strategy_for_lowered("pdf"), Some(ExtractionStrategy::Pdf));
}

#[test]
fn text_extensions_are_read_as_plain_text() {
    for extension in ["txt", "md", "json", "rs", "ts", "tsx", "js"] {
        assert_eq!(strategy_for(extension), Some(ExtractionStrategy::PlainText), "{}", extension);
        assert_eq!(strategy_for_lowered(extension), Some(ExtractionStrategy::PlainText));
    }
}

#[test]
fn case_of_the_extension_does_not_matter() {
    assert_eq!(strategy_for("PDF"), Some(ExtractionStrategy::Pdf));
    assert_eq!(strategy_for("Pdf"), Some(ExtractionStrategy::Pdf));
    assert_eq!(strategy_for("TXT"), Some(ExtractionStrategy::PlainText));
    assert_eq!(strategy_for("Json"), Some(ExtractionStrategy::PlainText));
    assert_eq!(strategy_for("TsX"), Some(ExtractionStrategy::PlainText));
}

#[test]
fn lowered_extension_is_taken_as_it_is() {
    assert_eq!(strategy_for_lowered("PDF"), None);
    assert_eq!(strategy_for_lowered("Txt"), None);
}

#[test]
fn other_extensions_are_skipped() {
    for extension in ["", "exe", "docx", "pdfx", "tx", "t", "jsx", "html", "p df", " pdf", "md "] {
        assert_eq!(strategy_for(extension), None, "{:?}", extension);
    }
}

#[test]
fn document_from_path_detects_the_extension() {
    let document = Document::from_path("notes/report.PDF".to_string());
    assert_eq!(document.path, "notes/report.PDF");
    assert_eq!(document.extension, "PDF");
    assert_eq!(document.strategy(), Some(ExtractionStrategy::Pdf));

    let document = Document::from_path("src/main.rs".to_string());
    assert_eq!(document.extension, "rs");
    assert_eq!(document.strategy(), Some(ExtractionStrategy::PlainText));

    let document = Document::from_path("archive.tar.gz".to_string());
    assert_eq!(document.extension, "gz");
    assert_eq!(document.strategy(), None);
}

#[test]
fn document_without_extension_is_skipped() {
    for path in ["README", ".bashrc", "dir.d/file", ""] {
        let document = Document::from_path(path.to_string());
        assert_eq!(document.extension, "", "{:?}", path);
        assert_eq!(document.strategy(), None);
    }
}

#[test]
fn document_new_keeps_what_it_is_given() {
    let document = Document::new("a/b.c".to_string(), "md".to_string());
    assert_eq!(document.path, "a/b.c");
    assert_eq!(document.extension, "md");
    assert_eq!(document.strategy(), Some(ExtractionStrategy::PlainText));
}

#[test]
fn detected_extension_is_kept_and_none_is_empty() {
    let document = Document::with_detected("a/b.TXT".to_string(), Some("TXT".to_string()));
    assert_eq!(document.path, "a/b.TXT");
    assert_eq!(document.extension, "TXT");
    let document = Document::with_detected("a/b".to_string(), None);
    assert_eq!(document.path, "a/b");
    assert_eq!(document.extension, "");
}

#[test]
fn detected_extension_holds_no_dot() {
    for path in ["a.b.c", "x.tar.gz", "..", "a..b", "dir.d/x.y.z", "trailing."] {
        let document = Document::from_path(path.to_string());
        assert!(!document.extension.contains('.'), "{:?}", path);
    }
    assert_eq!(Document::from_path("a.b.c".to_string()).extension, "c");
    assert_eq!(Document::from_path("trailing.".to_string()).extension, "");
}

#[test]
fn bare_file_name_shows_what_follows_its_last_dot() {
    let cases = [
        ("report.txt", "txt"),
        ("report.TXT", "TXT"),
        ("archive.tar.gz", "gz"),
        (".hidden.md", "md"),
        ("name.", ""),
        ("a.b", "b"),
        ("x.y.z.pdf", "pdf"),
        ("with space.json", "json"),
        ("übung.rs", "rs"),
        ("数据.tsx", "tsx"),
    ];
    for (path, extension) in cases {
        assert_eq!(Document::from_path(path.to_string()).extension, extension, "{:?}", path);
    }
}

#[test]
fn path_without_a_dot_shows_no_extension() {
    for path in ["", "README", "dir/file", "a/b/c", "C:\\dir\\file", "/", "name with space"] {
        assert_eq!(Document::from_path(path.to_string()).extension, "", "{:?}", path);
    }
}

/// Every path of up to six characters over a small alphabet.
fn short_paths() -> Vec<String> {
    let alphabet = ['a', 'b', '.', '/', '\\', ':', 'é'];
    let mut paths = vec![String::new()];
    let mut from = 0;
    for _ in 0..6 {
        let until = paths.len();
        for i in from..until {
            for c in alphabet {
                let mut longer = paths[i].clone();
                longer.push(c);
                paths.push(longer);
            }
        }
        from = until;
    }
    paths
}

#[test]
fn detected_extension_keeps_its_promises_on_every_short_path() {
    for path in short_paths() {
        let chars: Vec<char> = path.chars().collect();
        let found: Vec<char> = Document::from_path(path.clone()).extension.chars().collect();

        assert!(!found.contains(&'.'), "{:?}", path);
        if !chars.contains(&'.') {
            assert!(found.is_empty(), "{:?}", path);
        }
        if !found.is_empty() {
            let behind_a_dot = (0..chars.len()).any(|dot| {
                chars[dot] == '.'
                    && dot + 1 + found.len() <= chars.len()
                    && chars[dot + 1..dot + 1 + found.len()] == found[..]
            });
            assert!(behind_a_dot, "{:?}", path);
        }
        let bare = !chars.iter().any(|c| *c == '/' || *c == '\\' || *c == ':');
        if let Some(dot) = chars.iter().rposition(|c| *c == '.') {
            if bare && dot > 0 && chars[dot - 1] != '.' {
                assert_eq!(found[..], chars[dot + 1..], "{:?}", path);
            }
        }
    }
}
