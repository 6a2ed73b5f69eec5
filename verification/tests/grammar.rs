use orisa::package::PackageReference;
use orisa::types::Id;
use regex::Regex;

fn strings_over(alphabet: &[char], max_len: usize) -> Vec<String> {
    let mut all = vec![String::new()];
    let mut last = vec![String::new()];
    for _ in 0..max_len {
        let mut next = Vec::with_capacity(last.len() * alphabet.len());
        for s in last.iter() {
            for c in alphabet.iter() {
                let mut longer = s.clone();
                longer.push(*c);
                next.push(longer);
            }
        }
        all.extend(next.iter().cloned());
        last = next;
    }
    all
}

#[test]
fn package_references_are_what_the_pattern_matches() {
    let pattern = Regex::new(
        r"^(?P<user>[[:word:]]+)(/(?P<repo>[[:word:]]+))?\.(?P<package>[[:word:]]+)$",
    )
    .unwrap();
    let alphabet = ['a', 'Z', '_', '7', '/', '.', ' ', '\n', '-', '\u{e9}'];
    let mut accepted = 0;
    for text in strings_over(&alphabet, 5) {
        let expected = pattern.captures(&text).map(|caps| {
            (
                caps.name("user").unwrap().as_str().to_string(),
                caps.name("repo").map(|s| s.as_str().to_string()),
                caps.name("package").unwrap().as_str().to_string(),
            )
        });
        let found = PackageReference::new(&text)
            .ok()
            .map(|p| (p.user().to_string(), p.repo().map(|s| s.to_string()), p.package().to_string()));
        assert_eq!(found, expected, "{:?}", text);
        if found.is_some() {
            accepted += 1;
        }
    }
    assert!(accepted > 0);
}

#[test]
fn longer_package_references_are_what_the_pattern_matches() {
    let pattern = Regex::new(
        r"^(?P<user>[[:word:]]+)(/(?P<repo>[[:word:]]+))?\.(?P<package>[[:word:]]+)$",
    )
    .unwrap();
    let texts = [
        "system.main",
        "jder/live.user",
        "jder/live.user.more",
        "a_b/c_d.e_f",
        "0/1.2",
        "user/repo/more.package",
        "user.package/repo",
        "\u{3b1}\u{3b2}.\u{3b3}",
        "user.pack\u{e4}ge",
        "user.package\r\n",
        "\tuser.package",
        "user..package",
        "user/.package",
        "USER/LIVE.PACKAGE",
    ];
    for text in texts.iter() {
        assert_eq!(PackageReference::new(text).is_ok(), pattern.is_match(text), "{:?}", text);
    }
}

#[test]
fn ids_are_what_the_marker_and_an_index_make() {
    let alphabet = ['#', '+', '-', '0', '1', '9', ' ', 'a', '\u{663}'];
    for text in strings_over(&alphabet, 5) {
        let expected = if text.starts_with('#') {
            text[1..].parse::<usize>().ok().map(Id)
        } else {
            None
        };
        assert_eq!(Id::parse(&text).ok(), expected, "{:?}", text);
    }
}
