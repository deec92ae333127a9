//! The library's texts and paths against the standard library's, over every short text of an
//! alphabet that holds what the rules turn on.

use capsule_runtime::{paths, text};
use std::path::{Component, Path};

/// Every text of up to `longest` of these characters.
fn texts(alphabet: &[char], longest: usize) -> Vec<String> {
    let mut all = vec![String::new()];
    let mut last = vec![String::new()];
    for _ in 0..longest {
        let mut next = Vec::new();
        for front in &last {
            for c in alphabet {
                next.push(format!("{front}{c}"));
            }
        }
        all.extend(next.iter().cloned());
        last = next;
    }
    all
}

#[test]
fn texts_are_trimmed_split_and_folded_as_the_language_does() {
    for s in texts(&[' ', '\t', '\n', '\u{2003}', '-', 'a', 'B', 'É'], 4) {
        assert_eq!(text::trimmed(&s), s.trim(), "{s:?}");
        assert_eq!(text::is_blank(&s), s.trim().is_empty(), "{s:?}");
        let words: Vec<&str> = s.split_whitespace().collect();
        assert_eq!(text::split_words(&s), words, "{s:?}");
        let pieces: Vec<&str> = s.split('-').collect();
        assert_eq!(text::split_pieces(&s, '-'), pieces, "{s:?}");
        assert_eq!(text::ascii_lowered(&s), s.to_ascii_lowercase(), "{s:?}");
    }
}

#[test]
fn texts_are_searched_and_ordered_as_the_language_does() {
    let all = texts(&['a', 'b', 'é', '\u{10000}'], 3);
    for s in &all {
        for other in &all {
            assert_eq!(text::same(s, other), s == other);
            assert_eq!(text::sorts_before(s, other), s < other, "{s:?} {other:?}");
            assert_eq!(text::starts_with(s, other), s.starts_with(other.as_str()));
            assert_eq!(text::contains(s, other), s.contains(other.as_str()), "{s:?} {other:?}");
            assert_eq!(
                text::strip_prefix(s, other).as_deref(),
                s.strip_prefix(other.as_str()),
                "{s:?} {other:?}"
            );
        }
    }
}

#[test]
fn numbers_are_read_and_written_as_the_language_does() {
    for s in texts(&['0', '1', '9', '+', '-', ' '], 5) {
        assert_eq!(text::parse_u64(&s), s.parse::<u64>().ok(), "{s:?}");
        assert_eq!(
            text::parse_up_to(&s, 65535),
            s.parse::<u16>().ok().map(u64::from),
            "{s:?}"
        );
    }
    for s in [
        "18446744073709551615",
        "18446744073709551616",
        "+00018446744073709551615",
        "99999999999999999999999999",
        "٣",
    ] {
        assert_eq!(text::parse_u64(s), s.parse::<u64>().ok(), "{s:?}");
    }
    for n in [0, 9, 10, 99, 100, 65535, u64::MAX] {
        assert_eq!(text::decimal_of(n), n.to_string());
    }
}

#[test]
fn paths_fall_into_the_components_the_language_gives_them() {
    for s in texts(&['/', '.', 'a', 'b'], 6) {
        let ours = paths::parse(&s);
        let theirs: Vec<Component> = Path::new(&s).components().collect();
        let mut parts: Vec<String> = Vec::new();
        let (mut rooted, mut here) = (false, false);
        for component in &theirs {
            match component {
                Component::RootDir => rooted = true,
                Component::CurDir => here = true,
                other => parts.push(other.as_os_str().to_string_lossy().into_owned()),
            }
        }
        assert_eq!(ours.parts, parts, "{s:?}");
        assert_eq!(matches!(ours.lead, paths::Lead::Root), rooted, "{s:?}");
        assert_eq!(matches!(ours.lead, paths::Lead::Here), here, "{s:?}");
        assert_eq!(
            paths::file_name_of(&s),
            Path::new(&s).file_name().map(|name| name.to_string_lossy().into_owned()),
            "{s:?}"
        );
    }
}

#[test]
fn paths_are_compared_and_stripped_by_component() {
    let all = texts(&['/', '.', 'a'], 4);
    for s in &all {
        for base in &all {
            let (path, root) = (Path::new(s), Path::new(base));
            assert_eq!(
                paths::same(&paths::parse(s), &paths::parse(base)),
                path == root,
                "{s:?} {base:?}"
            );
            let stripped = paths::strip(&paths::parse(s), &paths::parse(base));
            assert_eq!(
                stripped.as_ref().map(paths::write),
                path.strip_prefix(root).ok().map(|rest| {
                    paths::write(&paths::parse(&rest.to_string_lossy()))
                }),
                "{s:?} {base:?}"
            );
        }
    }
}
