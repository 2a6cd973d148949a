use caliber::datevalue::matches_in_full;
use caliber::registry::date_values;
use caliber::tags::{count_tag_occurrences, extract_tags};
use regex::Regex;

fn strings(alphabet: &[char], max_len: usize) -> Vec<String> {
    let mut all = vec![String::new()];
    let mut last = vec![String::new()];
    for _ in 0..max_len {
        let mut next = Vec::new();
        for s in &last {
            for c in alphabet {
                let mut t = s.clone();
                t.push(*c);
                next.push(t);
            }
        }
        all.extend(next.iter().cloned());
        last = next;
    }
    all
}

fn without_suffix(s: &str) -> &str {
    s.strip_suffix('+').or_else(|| s.strip_suffix('-')).unwrap_or(s)
}

#[test]
fn relative_days_agree_with_their_pattern() {
    let pattern = Regex::new("^d[1-9][0-9]{0,2}$").unwrap();
    let dv = date_values().into_iter().find(|dv| dv.syntax == "d1").unwrap();
    for s in strings(&['d', '0', '1', '9', '+', '-', 'x'], 5) {
        assert_eq!(matches_in_full(&s, &dv), pattern.is_match(without_suffix(&s)), "{s:?}");
    }
}

#[test]
fn every_day_of_month_agrees_with_its_pattern() {
    let pattern = Regex::new("^every-([1-9]|[12][0-9]|3[01])$").unwrap();
    let dv = date_values().into_iter().find(|dv| dv.syntax == "every-1").unwrap();
    for tail in strings(&['0', '1', '2', '3', '4', '9', '+', '-'], 3) {
        let s = format!("every-{tail}");
        assert_eq!(matches_in_full(&s, &dv), pattern.is_match(without_suffix(&s)), "{s:?}");
    }
    for tail in strings(&['0', '1', '3'], 2) {
        let s = format!("every{tail}");
        assert_eq!(matches_in_full(&s, &dv), pattern.is_match(without_suffix(&s)), "{s:?}");
    }
}

#[test]
fn tags_agree_with_their_pattern() {
    let pattern = Regex::new("#([a-zA-Z][a-zA-Z0-9_-]*)").unwrap();
    for s in strings(&['#', 'a', 'Z', '1', '_', '-', ' '], 5) {
        let want: Vec<String> = pattern.captures_iter(&s).map(|c| c[1].to_string()).collect();
        assert_eq!(extract_tags(&s), want, "{s:?}");
        let count = want.iter().filter(|t| t.eq_ignore_ascii_case("a")).count();
        assert_eq!(count_tag_occurrences(&s, "A"), count, "{s:?}");
    }
}
