use bones::chance::{code_from_draws, generate_code, roll_n};
use bones::clock::{clock_reading, now_ms};
use bones::requests::Luck;

const ALPHABET: &str = "ABCDEFGHJKLMNPQRSTUVWXYZ23456789";

#[test]
fn codes_are_five_characters_of_the_alphabet() {
    let mut seen = String::new();
    for _ in 0..400 {
        let code = generate_code();
        assert_eq!(code.len(), 5);
        assert!(code.chars().all(|c| ALPHABET.contains(c)), "{code}");
        seen.push_str(&code);
    }
    assert!(ALPHABET.chars().all(|c| seen.contains(c)));
    assert_ne!(generate_code() + &generate_code(), generate_code() + &generate_code());
}

#[test]
fn draws_spell_codes() {
    assert_eq!(code_from_draws(&vec![0, 7, 8, 12, 13]), "AHJNP");
    assert_eq!(code_from_draws(&vec![31, 24, 23]), "92Z");
    assert_eq!(code_from_draws(&vec![]), "");
}

#[test]
fn rolls_show_every_face() {
    assert!(roll_n(0).is_empty());
    let dice = roll_n(600);
    assert_eq!(dice.len(), 600);
    assert!(dice.iter().all(|d| (1..=6).contains(d)));
    assert!((1..=6).all(|face| dice.contains(&face)));
}

#[test]
fn luck_brings_as_many_dice_as_wanted() {
    let luck = Luck::draw(6);
    assert_eq!(luck.dice.len(), 6);
    assert_eq!(luck.code.len(), 5);
    assert_ne!(luck.fresh, Luck::draw(0).fresh);
}

#[test]
fn clock_counts_milliseconds_since_the_epoch() {
    let before = std::time::SystemTime::now()
        .duration_since(std::time::UNIX_EPOCH)
        .unwrap()
        .as_millis() as u64;
    let now = now_ms();
    assert!(now >= before && now < before + 60_000);
    assert_eq!(clock_reading(None), 0);
    assert_eq!(clock_reading(Some(1_700_000_000_123)), 1_700_000_000_123);
    assert_eq!(clock_reading(Some(u64::MAX as u128 + 6)), 5);
}
