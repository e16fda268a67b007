use sha2::Digest;
use timetable_archive::pseudonym::transform;

#[test]
fn distinct_names_get_distinct_tokens() {
    let corpus = ["MUE", "SCH", "KLE", "Meier", "Schulz", "a", "b", ""];
    for (i, a) in corpus.iter().enumerate() {
        for (j, b) in corpus.iter().enumerate() {
            if i != j {
                assert_ne!(transform("secret", a), transform("secret", b));
            }
        }
    }
}

#[test]
fn repeated_calls_are_stable() {
    let first = transform("secret", "MUE");
    let second = transform("secret", "MUE");
    assert_eq!(first, second);
}

#[test]
fn changing_the_secret_changes_the_token() {
    assert_ne!(transform("secret-a", "MUE"), transform("secret-b", "MUE"));
}

#[test]
fn token_is_sixty_four_hex_chars() {
    let token = transform("secret", "MUE");
    assert_eq!(token.len(), 64);
    assert!(token.chars().all(|c| c.is_ascii_hexdigit() && !c.is_ascii_uppercase()));
}

#[test]
fn empty_inputs_give_the_empty_string_digest() {
    // The SHA-256 digest of the empty input, in lowercase hex.
    assert_eq!(
        transform("", ""),
        "e3b0c44298fc1c149afbf4c8996fb92427ae41e4649b934ca495991b7852b855"
    );
}

#[test]
fn token_matches_a_directly_computed_digest() {
    let mut hasher = sha2::Sha256::new();
    hasher.update("secret");
    hasher.update("MUE");
    let digest = hasher.finalize();
    let mut expected = String::new();
    for b in digest.iter() {
        expected.push_str(&format!("{:02x}", b));
    }
    assert_eq!(transform("secret", "MUE"), expected);
}

#[test]
fn token_is_not_the_raw_name() {
    let token = transform("secret", "MUE");
    assert_ne!(token, "MUE");
    assert_ne!(token, "secretMUE");
}
