use adept::text::{is_kebab_case, jaccard, to_kebab_case, word_bag, words};

#[test]
fn kebab_case_collapses_runs_and_trims_hyphens() {
    assert_eq!(to_kebab_case("Fills PDF Forms!"), "fills-pdf-forms");
    assert_eq!(to_kebab_case("  __leading & trailing __ "), "leading-trailing");
    assert_eq!(to_kebab_case("already-kebab-2"), "already-kebab-2");
}

#[test]
fn kebab_case_of_text_with_no_ascii_alphanumerics_is_empty() {
    assert_eq!(to_kebab_case("!!! ??? ..."), "");
    assert_eq!(to_kebab_case("日本語"), "");
}

#[test]
fn kebab_case_output_is_kebab_case_and_stable() {
    for input in ["Fills PDF Forms!", "a--b", "X1 y2", "already-kebab-2"] {
        let once = to_kebab_case(input);
        assert!(is_kebab_case(&once), "{once}");
        assert_eq!(to_kebab_case(&once), once);
    }
}

#[test]
fn is_kebab_case_rejects_uppercase_underscores_and_stray_hyphens() {
    assert!(is_kebab_case("pdf-filler"));
    assert!(is_kebab_case("v2"));
    assert!(!is_kebab_case("PDF-filler"));
    assert!(!is_kebab_case("pdf_filler"));
    assert!(!is_kebab_case("-pdf"));
    assert!(!is_kebab_case("pdf-"));
    assert!(!is_kebab_case("pdf--filler"));
    assert!(!is_kebab_case(""));
}

#[test]
fn words_are_lowercased_alphanumeric_runs() {
    assert_eq!(words("Fills PDF-forms, fast!"), vec!["fills", "pdf", "forms", "fast"]);
}

#[test]
fn word_bag_lists_each_word_once_in_first_occurrence_order() {
    assert_eq!(word_bag("b a B c a"), vec!["b", "a", "c"]);
}

#[test]
fn identical_text_is_fully_similar() {
    let a = word_bag("Fills PDF forms automatically");
    assert!(a.contains(&"fills".to_string()));
    let (shared, union) = jaccard(&a, &a);
    assert!(union > 0);
    assert_eq!(shared as u128, union);
}

#[test]
fn disjoint_text_has_zero_similarity() {
    let a = word_bag("apples oranges");
    let b = word_bag("trucks planes");
    assert_eq!(jaccard(&a, &b), (0, 4));
}

#[test]
fn empty_sets_are_zero_not_nan() {
    let empty = word_bag("   ");
    assert_eq!(jaccard(&empty, &empty), (0, 0));
}

#[test]
fn partly_shared_bags_count_the_union_once() {
    let a = word_bag("fill pdf forms");
    let b = word_bag("fill word forms");
    assert_eq!(jaccard(&a, &b), (2, 4));
}

#[test]
fn similarity_is_symmetric_and_at_most_one() {
    let a = word_bag("extract tables from pdf files");
    let b = word_bag("fill pdf forms and extract fields");
    let (ab_shared, ab_union) = jaccard(&a, &b);
    let (ba_shared, ba_union) = jaccard(&b, &a);
    assert_eq!((ab_shared, ab_union), (ba_shared, ba_union));
    assert_eq!((ab_shared, ab_union), (2, 9));
    assert!(ab_shared as u128 <= ab_union);
}

#[test]
fn kebab_case_is_empty_exactly_when_no_ascii_alphanumeric_is_present() {
    assert_eq!(to_kebab_case("  --- __ éü "), "");
    assert_eq!(to_kebab_case(""), "");
    assert_eq!(to_kebab_case("é7ü"), "7");
    let once = to_kebab_case("  Hello, World -- 42!");
    assert_eq!(once, "hello-world-42");
    assert_eq!(to_kebab_case(&once), once);
}
