use cutile_macro::shadow_dispatch::{contains_whole_word, is_word_byte, pascal_case};
use cutile_macro::text::{comes_before, decimal, includes, join};

fn strings(v: &[&str]) -> Vec<String> {
    v.iter().map(|x| x.to_string()).collect()
}

#[test]
fn pascal_case_of_snake_case() {
    assert_eq!(pascal_case("broadcast_scalar"), "BroadcastScalar");
    assert_eq!(pascal_case("addf"), "Addf");
    assert_eq!(pascal_case("reduce_sum2_x"), "ReduceSum2X");
    assert_eq!(pascal_case("__a_b"), "AB");
    assert_eq!(pascal_case("a_"), "A");
    assert_eq!(pascal_case("1a"), "1a");
    assert_eq!(pascal_case("ß_x"), "SSX");
    assert_eq!(pascal_case(""), "");
}

#[test]
fn whole_words_only() {
    assert!(contains_whole_word("Tile < E , S >", "S"));
    assert!(!contains_whole_word("Tile < E , S_0 >", "S"));
    assert!(!contains_whole_word("Tile < E , TS >", "S"));
    assert!(contains_whole_word("S", "S"));
    assert!(contains_whole_word("& 'a T", "a"));
    assert!(contains_whole_word("[i32 ; N]", "N"));
    assert!(!contains_whole_word("", "N"));
    assert!(!contains_whole_word("N", "NN"));
    // The second occurrence counts where the first is part of a word.
    assert!(contains_whole_word("SS , S", "S"));
}

#[test]
fn word_bytes() {
    for b in 0..=255u8 {
        assert_eq!(is_word_byte(b), b.is_ascii_alphanumeric() || b == b'_', "{b}");
    }
}

#[test]
fn numbers_are_written_in_decimal() {
    for n in [0usize, 7, 10, 99, 100, 4294967295] {
        assert_eq!(decimal(n), n.to_string());
    }
}

#[test]
fn strings_are_ordered_by_code_point() {
    let names = ["", "A", "AB", "B", "M", "N", "a", "é", "z", "漢"];
    for a in names {
        for b in names {
            assert_eq!(comes_before(a, b), a < b, "{a} {b}");
        }
    }
}

#[test]
fn lists_of_strings() {
    assert_eq!(join(&strings(&["a", "b", "c"]), ", "), "a, b, c");
    assert_eq!(join(&strings(&[]), ", "), "");
    assert!(includes(&strings(&["a", "b"]), "b"));
    assert!(!includes(&strings(&["a", "b"]), "c"));
}

#[test]
fn a_word_search_splits_at_a_separator() {
    let parts = ["", "S", "SS", "xS", "S S", "Tile", "é"];
    for a in parts {
        for b in parts {
            for sep in [" ", "<", ","] {
                assert_eq!(
                    contains_whole_word(&format!("{a}{sep}{b}"), "S"),
                    contains_whole_word(a, "S") || contains_whole_word(b, "S"),
                    "{a}{sep}{b}"
                );
            }
        }
    }
}

#[test]
fn pascal_case_of_joined_names() {
    for a in ["", "add", "_x", "reduce_sum", "é"] {
        for b in ["", "f", "ptr_2", "_"] {
            let joined = format!("{a}_{b}");
            assert_eq!(pascal_case(&joined), pascal_case(a) + &pascal_case(b), "{joined}");
        }
    }
}
