use polymer::minimizer::{minimize, strip_type};
use polymer::reduction::reduce;
use polymer::text::{run, text_of, units_of};

fn units(s: &str) -> Vec<char> {
    s.chars().collect()
}

fn reduced(s: &str) -> String {
    reduce(&units(s)).into_iter().collect()
}

fn reacting(a: char, b: char) -> bool {
    a != b && a.to_ascii_lowercase() == b.to_ascii_lowercase()
}

/// Removes reacting pairs, chosen by a small pseudo-random generator, until
/// none is left.
fn eliminate_randomly(s: &str, seed: u64) -> String {
    let mut v = units(s);
    let mut state = seed;
    loop {
        let spots: Vec<usize> = (0..v.len().saturating_sub(1))
            .filter(|&i| reacting(v[i], v[i + 1]))
            .collect();
        if spots.is_empty() {
            break;
        }
        state = state.wrapping_mul(6364136223846793005).wrapping_add(1442695040888963407);
        let i = spots[((state >> 33) as usize) % spots.len()];
        v.drain(i..i + 2);
    }
    v.into_iter().collect()
}

/// Rescans the whole polymer, removing reacting pairs, until a pass removes
/// nothing.
fn eliminate_by_passes(s: &str) -> String {
    let mut v = units(s);
    loop {
        let mut out: Vec<char> = Vec::new();
        let mut i = 0;
        while i < v.len() {
            if i + 1 < v.len() && reacting(v[i], v[i + 1]) {
                i += 2;
            } else {
                out.push(v[i]);
                i += 1;
            }
        }
        if out.len() == v.len() {
            return out.into_iter().collect();
        }
        v = out;
    }
}

const WORKED: &str = "dabAcCaCBAcCcaDA";

#[test]
fn single_pair_annihilates() {
    assert_eq!(reduced("aA"), "");
}

#[test]
fn nested_pairs_annihilate() {
    assert_eq!(reduced("abBA"), "");
}

#[test]
fn alternating_types_do_not_react() {
    assert_eq!(reduced("abAB"), "abAB");
}

#[test]
fn same_polarity_is_inert() {
    assert_eq!(reduced("aabAAB"), "aabAAB");
}

#[test]
fn worked_example_reduces() {
    let r = reduced(WORKED);
    assert_eq!(r, "dabCBAcaDA");
    assert_eq!(r.len(), 10);
}

#[test]
fn empty_polymer_stays_empty() {
    assert_eq!(reduced(""), "");
    assert_eq!(run(String::new()), "");
}

#[test]
fn run_reduces_text() {
    assert_eq!(run(WORKED.to_string()), "dabCBAcaDA");
    assert_eq!(run("xXyzZY".to_string()), "");
    assert_eq!(run("ab-Ba".to_string()), "ab-Ba");
}

#[test]
fn reduction_is_idempotent() {
    for s in [WORKED, "aA", "abAB", "xyzZYXq", ""] {
        let once = reduced(s);
        assert_eq!(reduced(&once), once);
    }
}

#[test]
fn every_elimination_order_agrees() {
    for s in [WORKED, "abBAcCdDeEfF", "aAbBaAcCAa", "zZyYxXQqAbBa", "dDaAbBCcEeaAbB"] {
        let expected = reduced(s);
        assert_eq!(eliminate_by_passes(s), expected);
        for seed in 0..20u64 {
            assert_eq!(eliminate_randomly(s, seed), expected);
        }
    }
}

#[test]
fn reduction_removes_an_even_count() {
    for s in [WORKED, "aAb", "abc", "aBbAc", ""] {
        let r = reduced(s);
        assert!(r.len() <= s.len());
        assert_eq!((s.len() - r.len()) % 2, 0);
    }
}

#[test]
fn unreactive_polymer_is_fixed() {
    for s in ["abc", "aaBB", "AbCdEf", "a1A"] {
        assert_eq!(reduced(s), s);
    }
}

#[test]
fn non_letters_never_react() {
    assert_eq!(reduced("1!!1"), "1!!1");
    assert_eq!(reduced("@`"), "@`");
}

#[test]
fn minimizer_finds_the_worked_best() {
    let (best_type, best_len) = minimize(&units(WORKED));
    assert_eq!(best_len, 4);
    assert_eq!(best_type, 'c');
}

#[test]
fn minimizer_length_is_the_least_over_all_types() {
    let p = units(WORKED);
    let (best_type, best_len) = minimize(&p);
    let mut least = usize::MAX;
    for t in b'a'..=b'z' {
        let len = reduce(&strip_type(&p, t as u32)).len();
        least = least.min(len);
    }
    assert_eq!(best_len, least);
    assert_eq!(reduce(&strip_type(&p, best_type as u32)).len(), best_len);
}

#[test]
fn minimizer_never_exceeds_reduced_length() {
    for s in [WORKED, "abc", "aA", "xyzXYZ", "aBcCbA"] {
        let (_, best_len) = minimize(&units(s));
        assert!(best_len <= reduced(s).len());
    }
}

#[test]
fn minimizer_on_empty_polymer() {
    let (best_type, best_len) = minimize(&[]);
    assert_eq!(best_len, 0);
    assert!(best_type.is_ascii_lowercase());
}

#[test]
fn stripping_removes_both_polarities() {
    assert_eq!(strip_type(&units(WORKED), 'a' as u32), units("dbcCCBcCcD"));
    assert_eq!(strip_type(&units("xyz"), 'q' as u32), units("xyz"));
}

#[test]
fn text_round_trips_through_units() {
    let u = units_of("héllo");
    assert_eq!(u, vec!['h', 'é', 'l', 'l', 'o']);
    assert_eq!(text_of(&u), "héllo");
}
