use login_simulator::error::ErrorKind;
use login_simulator::probability::Probability;

#[test]
fn probability_new_accepts_ratios_up_to_one() {
    let p = Probability::new(87, 100).unwrap();
    assert_eq!(p.numerator(), 87);
    assert_eq!(p.denominator(), 100);
    assert!(Probability::new(0, 1).is_ok());
    assert!(Probability::new(5, 5).is_ok());
}

#[test]
fn probability_new_rejects_what_is_no_probability() {
    assert_eq!(Probability::new(1, 0).unwrap_err(), ErrorKind::InvalidDistributionParameter);
    assert_eq!(Probability::new(3, 2).unwrap_err(), ErrorKind::InvalidDistributionParameter);
}

#[test]
fn probability_from_millionths_clamps() {
    assert_eq!(Probability::from_millionths(-5).numerator(), 0);
    assert_eq!(Probability::from_millionths(350_000).numerator(), 350_000);
    assert_eq!(Probability::from_millionths(1_010_000).numerator(), 1_000_000);
    assert_eq!(Probability::from_millionths(7).denominator(), 1_000_000);
}

#[test]
fn probability_complement_keeps_the_denominator() {
    let p = Probability::new(1, 4).unwrap().complement();
    assert_eq!((p.numerator(), p.denominator()), (3, 4));
}
