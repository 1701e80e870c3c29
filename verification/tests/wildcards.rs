use site_discovery_flea::filter::vhost_not_in_ignore_list;

/// The meaning of a pattern, written out case by case.
fn matches_by_definition(pattern: &[char], text: &[char]) -> bool {
    match pattern.first() {
        None => text.is_empty(),
        Some('*') => {
            matches_by_definition(&pattern[1..], text)
                || (!text.is_empty() && matches_by_definition(pattern, &text[1..]))
        }
        Some(first) => {
            !text.is_empty()
                && (*first == '?' || *first == text[0])
                && matches_by_definition(&pattern[1..], &text[1..])
        }
    }
}

fn words(alphabet: &[char], max_len: usize) -> Vec<String> {
    let mut all: Vec<String> = vec![String::new()];
    let mut last: Vec<String> = vec![String::new()];
    for _ in 0..max_len {
        let mut next: Vec<String> = Vec::new();
        for word in &last {
            for letter in alphabet {
                let mut longer = word.clone();
                longer.push(*letter);
                next.push(longer);
            }
        }
        all.extend(next.iter().cloned());
        last = next;
    }
    all
}

fn is_ignored(domain: &str, pattern: &str) -> bool {
    !vhost_not_in_ignore_list(&domain.to_string(), &vec![pattern])
}

#[test]
fn ignore_matching_agrees_with_the_definition_on_all_short_words() {
    let patterns = words(&['a', 'b', '*', '?'], 5);
    let texts = words(&['a', 'b'], 5);
    for pattern in &patterns {
        let pattern_chars: Vec<char> = pattern.chars().collect();
        for text in &texts {
            let text_chars: Vec<char> = text.chars().collect();
            assert_eq!(
                is_ignored(text, pattern),
                matches_by_definition(&pattern_chars, &text_chars),
                "pattern {:?} on {:?}",
                pattern,
                text
            );
        }
    }
}

#[test]
fn wildcard_characters_in_the_domain_are_ordinary_characters() {
    let patterns = words(&['a', '*', '?'], 4);
    let texts = words(&['a', '*', '?'], 4);
    for pattern in &patterns {
        let pattern_chars: Vec<char> = pattern.chars().collect();
        for text in &texts {
            let text_chars: Vec<char> = text.chars().collect();
            assert_eq!(
                is_ignored(text, pattern),
                matches_by_definition(&pattern_chars, &text_chars),
                "pattern {:?} on {:?}",
                pattern,
                text
            );
        }
    }
}

#[test]
fn suffix_and_prefix_patterns() {
    assert!(is_ignored("x.internal", "*.internal"));
    assert!(is_ignored("a.b.internal", "*.internal"));
    assert!(is_ignored(".internal", "*.internal"));
    assert!(!is_ignored("internal", "*.internal"));
    assert!(!is_ignored("x.internal.", "*.internal"));
    assert!(is_ignored("internal.io", "internal.*"));
    assert!(is_ignored("internal.", "internal.*"));
    assert!(!is_ignored("my.internal.io", "internal.*"));
}

#[test]
fn matching_observes_case() {
    assert!(is_ignored("Example.com", "Example.com"));
    assert!(!is_ignored("example.com", "Example.com"));
    assert!(!is_ignored("EXAMPLE.COM", "example.*"));
}
