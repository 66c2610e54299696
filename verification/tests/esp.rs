use rusty_esp_mid::bench::min_and_median;
use rusty_esp_mid::error::Error;
use rusty_esp_mid::esp::{blob_fits, protection, refuse_plaintext, EspRng, Protection};

#[test]
fn protection_needs_both_encryptions() {
    assert_eq!(protection(true, true), Protection::Encrypted);
    assert_eq!(protection(true, false), Protection::Plaintext);
    assert_eq!(protection(false, true), Protection::Plaintext);
    assert_eq!(protection(false, false), Protection::Plaintext);
}

#[test]
fn plaintext_is_refused_unless_insecure_dev() {
    assert_eq!(refuse_plaintext(Protection::Plaintext, false), Err(Error::Denied));
    assert_eq!(refuse_plaintext(Protection::Plaintext, true), Ok(()));
    assert_eq!(refuse_plaintext(Protection::Encrypted, false), Ok(()));
}

#[test]
fn unarmed_rng_is_busy() {
    assert_eq!(EspRng::unarmed().fill_request(32), Err(Error::Busy));
    assert_eq!(EspRng::after_radio_start().fill_request(32), Ok(true));
    assert_eq!(EspRng::after_radio_start().fill_request(0), Ok(false));
}

#[test]
fn blob_must_fit() {
    assert_eq!(blob_fits(32, 32), Ok(()));
    assert_eq!(blob_fits(40, 32), Err(Error::BufferTooSmall { needed: 40 }));
}

#[test]
fn min_and_median_of_a_sample() {
    let mut s = [5u64, 1, 4, 2, 3];
    assert_eq!(min_and_median(&mut s), (1, 3));
    assert_eq!(s, [1, 2, 3, 4, 5]);
    let mut even = [10u64, 7, 9, 8];
    assert_eq!(min_and_median(&mut even), (7, 9));
    let mut one = [42u64];
    assert_eq!(min_and_median(&mut one), (42, 42));
}
