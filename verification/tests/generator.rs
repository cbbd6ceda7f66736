use repassync::pwgen::PasswordGenerator;
use repassync::quality::{quality_from_score, Quality};

#[test]
fn generates_requested_length() {
    let mut g = PasswordGenerator::new(24, true, true, true, true);
    let pw = g.generate();
    assert_eq!(pw.chars().count(), 24);
}

#[test]
fn lower_only_stays_in_range() {
    let mut g = PasswordGenerator::new(64, true, false, false, false);
    let pw = g.generate();
    assert!(pw.chars().all(|c| c.is_ascii_lowercase()), "{}", pw);
}

#[test]
fn upper_only_stays_in_range() {
    let mut g = PasswordGenerator::new(64, false, true, false, false);
    let pw = g.generate();
    assert!(pw.chars().all(|c| c.is_ascii_uppercase()), "{}", pw);
}

#[test]
fn numbers_only_stays_in_range() {
    let mut g = PasswordGenerator::new(64, false, false, true, false);
    let pw = g.generate();
    assert!(pw.chars().all(|c| c.is_ascii_digit()), "{}", pw);
}

#[test]
fn special_only_stays_in_range() {
    let mut g = PasswordGenerator::new(64, false, false, false, true);
    let pw = g.generate();
    assert!(
        pw.chars().all(|c| {
            let x = c as u32;
            (0x21..=0x2f).contains(&x)
                || (0x3a..=0x40).contains(&x)
                || (0x5b..=0x60).contains(&x)
                || (0x7b..=0x7e).contains(&x)
        }),
        "{}",
        pw
    );
}

#[test]
fn empty_password_allowed() {
    let mut g = PasswordGenerator::new(0, true, false, false, false);
    assert_eq!(g.generate(), "");
}

#[test]
fn two_draws_differ() {
    let mut g = PasswordGenerator::new(32, true, true, true, true);
    assert_ne!(g.generate(), g.generate());
}

#[test]
fn quality_bands() {
    assert!(matches!(quality_from_score(-1, 0), Quality::Weak));
    assert!(matches!(quality_from_score(-7, 3), Quality::Low));
    assert!(matches!(quality_from_score(0, 5), Quality::Medium));
    assert!(matches!(quality_from_score(49, 10), Quality::Medium));
    assert!(matches!(quality_from_score(50, 10), Quality::Good));
    assert!(matches!(quality_from_score(74, 10), Quality::Good));
    assert!(matches!(quality_from_score(75, 10), Quality::High));
    assert!(matches!(quality_from_score(100, 12), Quality::High));
}

#[test]
fn zero_length_needs_no_classes() {
    let mut g = PasswordGenerator::new(0, false, false, false, false);
    assert_eq!(g.generate(), "");
}
