use archie::catalog::{build_catalog, Catalog};
use archie::order::{bytes_cmp, has_prefix};

fn bv(s: &str) -> Vec<u8> {
    s.as_bytes().to_vec()
}

fn lines(xs: &[&str]) -> Vec<Vec<u8>> {
    xs.iter().map(|s| bv(s)).collect()
}

#[test]
fn build_catalog_scenario() {
    let a = lines(&["zeus", "apple", "apple", "mesa"]);
    let b = lines(&["glibc", "apple"]);
    let c = build_catalog(&a, &b);
    assert_eq!(c.entries, lines(&["apple", "glibc", "mesa", "zeus"]));
}

#[test]
fn build_catalog_empty_sources() {
    let c = build_catalog(&Vec::new(), &Vec::new());
    assert!(c.entries.is_empty());
    assert!(c.is_wf());
}

#[test]
fn build_catalog_drops_empty_lines() {
    let a = lines(&["", "beta", ""]);
    let b = lines(&[""]);
    let c = build_catalog(&a, &b);
    assert_eq!(c.entries, lines(&["beta"]));
}

#[test]
fn build_catalog_order_independent() {
    let a = lines(&["zeus", "apple", "mesa"]);
    let b = lines(&["glibc", "apple"]);
    let c1 = build_catalog(&a, &b);
    let c2 = build_catalog(&b, &a);
    let shuffled = lines(&["mesa", "zeus", "apple", "apple"]);
    let c3 = build_catalog(&shuffled, &lines(&["apple", "glibc"]));
    assert_eq!(c1.entries, c2.entries);
    assert_eq!(c1.entries, c3.entries);
}

#[test]
fn build_catalog_sorted_deduplicated() {
    let a = lines(&["pacman", "abc", "abc", "zlib", "abc"]);
    let b = lines(&["zlib", "pacman", "mesa"]);
    let c = build_catalog(&a, &b);
    assert_eq!(c.entries, lines(&["abc", "mesa", "pacman", "zlib"]));
    assert!(c.is_wf());
}

#[test]
fn complete_returns_matching_subsequence() {
    let a = lines(&["mesa", "meson", "paru", "me", "melt", "zlib"]);
    let c = build_catalog(&a, &Vec::new());
    let r = c.complete(&bv("me"));
    assert_eq!(r, lines(&["me", "melt", "mesa", "meson"]));
    let r2 = c.complete(&bv("mes"));
    assert_eq!(r2, lines(&["mesa", "meson"]));
}

#[test]
fn complete_empty_prefix_returns_all() {
    let a = lines(&["zeus", "apple", "mesa"]);
    let c = build_catalog(&a, &Vec::new());
    let r = c.complete(&Vec::new());
    assert_eq!(r, c.entries);
}

#[test]
fn complete_no_match_returns_nothing() {
    let a = lines(&["zeus", "apple", "mesa"]);
    let c = build_catalog(&a, &Vec::new());
    let r = c.complete(&bv("qt"));
    assert!(r.is_empty());
}

#[test]
fn complete_single_exact_match() {
    let a = lines(&["zeus", "apple", "mesa"]);
    let c = build_catalog(&a, &Vec::new());
    let r = c.complete(&bv("apple"));
    assert_eq!(r, lines(&["apple"]));
}

#[test]
fn is_wf_rejects_unsorted_entries() {
    let c = Catalog { entries: lines(&["beta", "alpha"]) };
    assert!(!c.is_wf());
    let d = Catalog { entries: lines(&["alpha", "alpha"]) };
    assert!(!d.is_wf());
    let e = Catalog { entries: lines(&["", "alpha"]) };
    assert!(!e.is_wf());
}

#[test]
fn complete_agrees_with_linear_scan() {
    let a = lines(&[
        "pacman", "paru", "pa", "mesa", "meson", "me", "melt", "glibc", "gcc", "git", "zlib",
        "zsh", "zeus", "qt5-base", "qt6-base",
    ]);
    let b = lines(&["git", "gi", "g", "qt5-base", "q"]);
    let c = build_catalog(&a, &b);
    for prefix in ["", "p", "pa", "paru", "m", "me", "mes", "g", "gi", "q", "qt", "z", "x", "zz"] {
        let expected: Vec<Vec<u8>> = c
            .entries
            .iter()
            .filter(|e| e.starts_with(prefix.as_bytes()))
            .cloned()
            .collect();
        assert_eq!(c.complete(&bv(prefix)), expected, "prefix {prefix:?}");
    }
}

#[test]
fn bytes_cmp_orders_by_byte_value() {
    assert_eq!(bytes_cmp(&bv("abc"), &bv("abd")), -1);
    assert_eq!(bytes_cmp(&bv("abc"), &bv("abc")), 0);
    assert_eq!(bytes_cmp(&bv("abd"), &bv("abc")), 1);
    assert_eq!(bytes_cmp(&bv("ab"), &bv("abc")), -1);
    assert_eq!(bytes_cmp(&bv("abc"), &bv("ab")), 1);
    assert_eq!(bytes_cmp(&bv(""), &bv("")), 0);
}

#[test]
fn has_prefix_checks_leading_bytes() {
    assert!(has_prefix(&bv(""), &bv("anything")));
    assert!(has_prefix(&bv("me"), &bv("mesa")));
    assert!(!has_prefix(&bv("mesa"), &bv("me")));
    assert!(!has_prefix(&bv("ms"), &bv("mesa")));
}
