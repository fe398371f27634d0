use iphoto::base::timestamp::seconds_of;

#[test]
fn the_epoch_is_zero() {
    assert_eq!(seconds_of("19700101", "000000"), Some(0));
}

#[test]
fn a_spring_morning() {
    assert_eq!(seconds_of("20230401", "103000"), Some(1680345000));
}

#[test]
fn the_second_before_the_epoch() {
    assert_eq!(seconds_of("19691231", "235959"), Some(-1));
}

#[test]
fn leap_years_are_counted() {
    assert_eq!(seconds_of("20000301", "000000"), Some(951868800));
    assert_eq!(seconds_of("20240229", "120000"), Some(1709208000));
    assert_eq!(seconds_of("20230229", "120000"), None);
    assert_eq!(seconds_of("19000229", "000000"), None);
    assert_eq!(seconds_of("20000229", "000000"), Some(951782400));
}

#[test]
fn the_first_and_the_last_year() {
    assert_eq!(seconds_of("00000101", "000000"), Some(-62167219200));
    assert_eq!(seconds_of("99991231", "235959"), Some(253402300799));
}

#[test]
fn what_is_no_moment_has_no_seconds() {
    assert_eq!(seconds_of("20230001", "000000"), None);
    assert_eq!(seconds_of("20231301", "000000"), None);
    assert_eq!(seconds_of("20230400", "000000"), None);
    assert_eq!(seconds_of("20230431", "000000"), None);
    assert_eq!(seconds_of("20230401", "240000"), None);
    assert_eq!(seconds_of("20230401", "006000"), None);
    assert_eq!(seconds_of("20230401", "000060"), None);
    assert_eq!(seconds_of("2023041", "000000"), None);
    assert_eq!(seconds_of("20230401", "00000"), None);
    assert_eq!(seconds_of("2023x401", "000000"), None);
    assert_eq!(seconds_of("20230401", "0000x0"), None);
}
