use txtdist::damerau_levenshtein;
use txtdist::levenshtein;

#[test]
fn test_levenschtein() {
    let distance = levenshtein("kitten", "sitting");
    assert_eq!(distance, 3);

    let distance = levenshtein("saturday", "sunday");
    assert_eq!(distance, 3);

    let distance = levenshtein("an act", "a cat");
    assert_eq!(distance, 3);

    let distance = levenshtein("", "AA");
    assert_eq!(distance, 2);

    let distance = levenshtein("string", "string");
    assert_eq!(distance, 0);
}

#[test]
fn test_damerau_levenschtein() {
    let distance = damerau_levenshtein("CA", "ABC");
    assert_eq!(distance, 2);

    let distance = damerau_levenshtein("an act", "a cat");
    assert_eq!(distance, 2);

    let distance = damerau_levenshtein("", "a cat");
    assert_eq!(distance, 5);

    let distance = damerau_levenshtein("MERCEDES-BENS", "MERCEDES-BENZ");
    assert_eq!(distance, 1);

    let distance = damerau_levenshtein("", "");
    assert_eq!(distance, 0);

    let distance = damerau_levenshtein("some string", "some string");
    assert_eq!(distance, 0);
}

#[test]
fn test_identity() {
    assert_eq!(levenshtein("levenshtein", "levenshtein"), 0);
    assert_eq!(damerau_levenshtein("damerau", "damerau"), 0);
    assert_eq!(levenshtein("", ""), 0);
}

#[test]
fn test_symmetry() {
    assert_eq!(levenshtein("kitten", "sitting"), levenshtein("sitting", "kitten"));
    assert_eq!(
        damerau_levenshtein("an act", "a cat"),
        damerau_levenshtein("a cat", "an act")
    );
}

#[test]
fn test_empty_boundary() {
    assert_eq!(levenshtein("", "a cat"), 5);
    assert_eq!(levenshtein("kitten", ""), 6);
    assert_eq!(damerau_levenshtein("abcdef", ""), 6);
    assert_eq!(damerau_levenshtein("", "xyz"), 3);
}

#[test]
fn test_triangle_inequality() {
    let (s, t, u) = ("kitten", "sitting", "mittens");
    assert!(levenshtein(s, u) <= levenshtein(s, t) + levenshtein(t, u));
}

#[test]
fn test_damerau_not_above_levenshtein() {
    for (s, t) in [
        ("ab", "ba"),
        ("CA", "ABC"),
        ("an act", "a cat"),
        ("kitten", "sitting"),
    ] {
        assert!(damerau_levenshtein(s, t) <= levenshtein(s, t));
    }
}

#[test]
fn test_single_substitution() {
    assert_eq!(levenshtein("abcd", "abXd"), 1);
    assert_eq!(damerau_levenshtein("abcd", "abXd"), 1);
}

#[test]
fn test_transposition_sensitivity() {
    assert_eq!(damerau_levenshtein("ab", "ba"), 1);
    assert_eq!(levenshtein("ab", "ba"), 2);
}

#[test]
fn test_multibyte_characters_count_as_one() {
    // each accented character is one code point, not one byte
    assert_eq!(levenshtein("caf\u{e9}", "cafe"), 1);
    assert_eq!(damerau_levenshtein("\u{e9}\u{e8}", "\u{e8}\u{e9}"), 1);
    assert_eq!(levenshtein("\u{1F600}", ""), 1);
}

#[test]
fn test_transposition_with_gap() {
    // the transposed characters are separated: "ca" -> "ac" with "b"
    // deleted between them
    assert_eq!(damerau_levenshtein("cba", "abc"), 2);
}
