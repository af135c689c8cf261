use regex::Regex;
use stock_tags::cache::ValidationCache;
use stock_tags::parser::parse_custom_tags;
use stock_tags::ranking::rank_tags;
use stock_tags::search::{make_needle, matches_text};
use stock_tags::stock_data::TagDetails;
use stock_tags::text::{insert_sorted, trim};
use stock_tags::validation::{classify_tag, ValidationStatus};

/// A small generator of repeatable pseudo-random numbers.
struct Dice(u64);

impl Dice {
    fn roll(&mut self, sides: usize) -> usize {
        self.0 = self.0.wrapping_mul(6364136223846793005).wrapping_add(1442695040888963407);
        ((self.0 >> 33) as usize) % sides
    }

    fn text(&mut self, alphabet: &[char], longest: usize) -> String {
        let len = self.roll(longest + 1);
        (0..len).map(|_| alphabet[self.roll(alphabet.len())]).collect()
    }
}

const SYNTAX: [char; 12] = [' ', ';', ':', '{', '}', 'a', 'b', '银', '\t', '\n', 'é', '\u{3000}'];

type Groups = Vec<(String, Vec<(String, Option<String>)>)>;

/// The tag syntax spelled out with the string functions of the standard
/// library.
fn parse_plainly(tags: &str) -> Groups {
    let pattern = Regex::new(r"^(.+?)\{(.+?)\}$").unwrap();
    let mut groups: Groups = Vec::new();
    for section in tags.split(';').map(|s| s.trim()).filter(|s| !s.is_empty()) {
        if let Some(colon) = section.find(':') {
            if colon > 0 {
                let category = section[..colon].trim().to_string();
                let value = section[colon + 1..].trim();
                let at = match groups.iter().position(|g| g.0 == category) {
                    Some(at) => at,
                    None => {
                        groups.push((category, Vec::new()));
                        groups.len() - 1
                    }
                };
                if let Some(caps) = pattern.captures(value) {
                    let name = caps.get(1).unwrap().as_str().trim().to_string();
                    let detail = caps.get(2).unwrap().as_str().trim().to_string();
                    groups[at].1.push((name, Some(detail)));
                } else if !value.is_empty() {
                    groups[at].1.push((value.to_string(), None));
                }
            }
        }
    }
    groups
}

fn parsed(tags: &str) -> Groups {
    parse_custom_tags(tags)
        .into_entries()
        .into_iter()
        .map(|(c, items)| (c, items.into_iter().map(|t| (t.name, t.detail)).collect()))
        .collect()
}

#[test]
fn parser_agrees_with_the_standard_string_functions() {
    let mut dice = Dice(7);
    for _ in 0..4000 {
        let raw = dice.text(&SYNTAX, 24);
        assert_eq!(parsed(&raw), parse_plainly(&raw), "on {:?}", raw);
    }
}

#[test]
fn parser_agrees_on_well_formed_texts() {
    let mut dice = Dice(11);
    let words = ["行业", "概念", "AI", "银行", "a b", "x", "核心", "Tech"];
    for _ in 0..1500 {
        let mut raw = String::new();
        for _ in 0..dice.roll(6) {
            let category = words[dice.roll(words.len())];
            let name = words[dice.roll(words.len())];
            match dice.roll(3) {
                0 => raw.push_str(&format!("{}:{}; ", category, name)),
                1 => raw.push_str(&format!(" {} : {}{{{}}};", category, name, words[dice.roll(words.len())])),
                _ => raw.push_str(&format!("{}:{} {{ {} }} ;", category, name, words[dice.roll(words.len())])),
            }
        }
        assert_eq!(parsed(&raw), parse_plainly(&raw), "on {:?}", raw);
    }
}

/// The rules spelled out with the string functions of the standard library.
fn classify_plainly(name: &str, detail: Option<&str>) -> ValidationStatus {
    let mut bad = false;
    if name.trim().is_empty() {
        bad = true;
    } else if name.contains(':') || name.contains('{') || name.contains('}') || name != name.trim() {
        bad = true;
    }
    if let Some(d) = detail {
        if d.contains(':') || d.contains('{') || d.contains('}') || d != d.trim() || d.chars().count() > 100 {
            bad = true;
        }
    }
    if bad {
        ValidationStatus::Error
    } else {
        ValidationStatus::Valid
    }
}

#[test]
fn rules_agree_with_the_standard_string_functions() {
    let mut dice = Dice(3);
    let alphabet = [' ', ':', '{', '}', 'a', 'b', '银', '\t', '\u{a0}', 'é'];
    for _ in 0..4000 {
        let name = dice.text(&alphabet, 5);
        let detail = if dice.roll(2) == 0 { None } else { Some(dice.text(&alphabet, 5)) };
        assert_eq!(
            classify_tag(&name, detail.as_deref()),
            classify_plainly(&name, detail.as_deref()),
            "on {:?} {:?}",
            name,
            detail
        );
    }
    let cache = ValidationCache::new();
    for len in [0usize, 1, 99, 100, 101, 102, 250] {
        let detail = "银".repeat(len);
        let expected = classify_plainly("n", Some(&detail));
        assert_eq!(classify_tag("n", Some(&detail)), expected);
        assert_eq!(stock_tags::cache::validate_tag_format(&cache, "n", Some(&detail)), expected);
    }
}

#[test]
fn trim_agrees_with_the_standard_library() {
    let mut dice = Dice(5);
    let alphabet = [' ', 'a', '\t', '\n', '银', '\u{a0}', '\u{3000}', '\u{2003}', '\u{85}', '\r', 'é', '\u{200b}'];
    for _ in 0..3000 {
        let text = dice.text(&alphabet, 8);
        assert_eq!(trim(&text), text.trim(), "on {:?}", text);
    }
}

#[test]
fn ranking_agrees_with_a_stable_sort() {
    let cache = ValidationCache::new();
    let mut dice = Dice(13);
    let names = ["a", "b", "ab", "B", "银", "é", "", "a:", " a", "z{", "zz"];
    for _ in 0..300 {
        let tags: Vec<TagDetails> = (0..dice.roll(12))
            .map(|i| TagDetails {
                name: names[dice.roll(names.len())].to_string(),
                detail: match dice.roll(3) {
                    0 => None,
                    1 => Some(format!("d{}", i)),
                    _ => Some(format!("d:{}", i)),
                },
                count: dice.roll(3) as u32,
                stocks: Vec::new(),
            })
            .collect();
        let mut expected: Vec<(String, Option<String>, u32)> =
            tags.iter().map(|t| (t.name.clone(), t.detail.clone(), t.count)).collect();
        expected.sort_by(|a, b| {
            let wa = classify_plainly(&a.0, a.1.as_deref()).weight();
            let wb = classify_plainly(&b.0, b.1.as_deref()).weight();
            wb.cmp(&wa).then(b.2.cmp(&a.2)).then(a.0.cmp(&b.0))
        });
        let ranked: Vec<(String, Option<String>, u32)> =
            rank_tags(tags, &cache).into_iter().map(|t| (t.name, t.detail, t.count)).collect();
        assert_eq!(ranked, expected);
    }
}

#[test]
fn sorted_insert_agrees_with_sort_and_dedup() {
    let mut dice = Dice(17);
    let alphabet = ['a', 'b', 'B', '银', 'é', '😀', ' '];
    for _ in 0..500 {
        let texts: Vec<String> = (0..dice.roll(10)).map(|_| dice.text(&alphabet, 3)).collect();
        let mut list: Vec<String> = Vec::new();
        for t in &texts {
            insert_sorted(&mut list, t);
        }
        let mut expected = texts.clone();
        expected.sort();
        expected.dedup();
        assert_eq!(list, expected);
    }
}

#[test]
fn matching_agrees_with_the_standard_library() {
    let mut dice = Dice(19);
    let alphabet = ['a', 'A', 'b', 'B', 'é', 'É', '银', ' ', 'Σ', 'σ'];
    for _ in 0..3000 {
        let text = dice.text(&alphabet, 6);
        let query = dice.text(&alphabet, 3);
        let expected = if query.trim().is_empty() {
            None
        } else {
            Some(query.to_lowercase())
        };
        assert_eq!(make_needle(Some(&query)), expected);
        if let Some(needle) = expected {
            assert_eq!(
                matches_text(&text, &needle),
                text.to_lowercase().contains(&needle),
                "on {:?} {:?}",
                text,
                needle
            );
        }
    }
}
