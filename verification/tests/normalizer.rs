use jamoa::normalizer::{
    self, differs_from_composed, needs_normalization, nfc, should_skip, unique_target,
};
use unicode_normalization::UnicodeNormalization;

fn nfd(s: &str) -> String {
    s.nfd().collect()
}

#[test]
fn detects_nfd_names() {
    let decomposed = nfd("한글 문서.pdf");
    assert!(needs_normalization(&decomposed));
    assert!(!needs_normalization("한글 문서.pdf"));
    assert!(!needs_normalization("plain-ascii.txt"));
}

#[test]
fn nfc_roundtrip() {
    let decomposed = nfd("보고서 최종.hwp");
    assert_eq!(nfc(&decomposed), "보고서 최종.hwp");
}

#[test]
fn skips_temp_and_hidden() {
    assert!(should_skip(".DS_Store"));
    assert!(should_skip("~$문서.docx"));
    assert!(should_skip("받는중.pdf.crdownload"));
    assert!(should_skip("영화.PART"));
    assert!(!should_skip("보고서.pdf"));
}

#[test]
fn skips_every_temporary_extension() {
    for ext in ["crdownload", "download", "part", "partial", "opdownload", "aria2", "tmp", "temp"] {
        assert!(should_skip(&format!("파일.{ext}")));
        assert!(should_skip(&format!("파일.{}", ext.to_uppercase())));
        assert!(!should_skip(&format!("파일{ext}")));
        assert!(!should_skip(&format!("파일.{ext}x")));
        assert!(!should_skip(&format!("파일.{ext}.txt")));
    }
}

#[test]
fn skip_edge_cases() {
    assert!(!should_skip(""));
    assert!(should_skip("."));
    assert!(!should_skip("~"));
    assert!(should_skip("~$"));
    assert!(!should_skip("$~"));
    assert!(!should_skip("이름."));
    assert!(!should_skip("tmp"));
}

#[test]
fn differs_only_from_another_text() {
    assert!(differs_from_composed("a", "b"));
    assert!(!differs_from_composed("가", "가"));
    assert!(differs_from_composed(&nfd("가"), "가"));
}

#[test]
fn candidates_go_between_stem_and_extension() {
    assert_eq!(unique_target("이름.txt", 1), "이름 (1).txt");
    assert_eq!(unique_target("이름.tar.gz", 42), "이름.tar (42).gz");
    assert_eq!(unique_target("이름", 999), "이름 (999)");
    assert_eq!(unique_target(".숨김", 7), ".숨김 (7)");
    assert_eq!(unique_target("이름.", 10), "이름 (10).");
    assert_eq!(unique_target("", 3), " (3)");
    assert_eq!(unique_target("이름.txt", 1000), "이름 (dup).txt");
}

#[test]
fn composing_is_stable() {
    for name in ["한글.txt", "각.b", "≮.가", "e\u{301}.x", "\u{301}.\u{301}"] {
        let once = nfc(&nfd(name));
        assert_eq!(nfc(&once), once);
        for i in [1, 12, 999, 1000] {
            assert!(!needs_normalization(&unique_target(&once, i)));
        }
    }
}

#[test]
fn decomposing_is_undone_by_composing() {
    assert_eq!(normalizer::nfd("가.txt"), "\u{1100}\u{1161}.txt");
    for name in ["보고서 최종.hwp", "e\u{301}\u{323}", "≮", "plain.txt", ""] {
        assert_eq!(normalizer::nfd(name), nfd(name));
        assert_eq!(nfc(&normalizer::nfd(name)), nfc(name));
    }
}

#[test]
fn ascii_text_inserted_before_ascii_stays_composed() {
    let composed = nfc(&nfd("가\u{301}.<\u{338}b"));
    let chars: Vec<char> = composed.chars().collect();
    for k in 0..=chars.len() {
        if k == chars.len() || chars[k].is_ascii() {
            let mut text: String = chars[..k].iter().collect();
            text.push_str(" (1)=<");
            text.extend(chars[k..].iter());
            assert_eq!(nfc(&text), text);
        }
    }
}

#[test]
fn ascii_is_never_renamed() {
    let all: String = (0u8..128).map(|b| b as char).collect();
    assert_eq!(nfc(&all), all);
    assert!(!needs_normalization(&all));
}

#[test]
fn candidates_are_distinct() {
    let mut seen: Vec<String> = vec!["이름.txt".to_string()];
    for i in 1..=1000 {
        seen.push(unique_target("이름.txt", i));
    }
    seen.sort();
    seen.dedup();
    assert_eq!(seen.len(), 1001);
}
