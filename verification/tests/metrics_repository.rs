use home_exporter::repository::metrics::MetricsRepository;

#[test]
fn new_repository_is_empty() {
    let r = MetricsRepository::new();
    assert_eq!(r.get_temperature(), None);
    assert_eq!(r.get_humidity(), None);
}

#[test]
fn read_gives_back_write() {
    let mut r = MetricsRepository::new();
    r.set_temperature(-55);
    r.set_humidity(45);
    assert_eq!(r.get_temperature(), Some(-55));
    assert_eq!(r.get_humidity(), Some(45));
}

#[test]
fn writes_are_independent() {
    let mut r = MetricsRepository::new();
    r.set_humidity(60);
    assert_eq!(r.get_temperature(), None);
    r.set_temperature(215);
    assert_eq!(r.get_humidity(), Some(60));
}

#[test]
fn last_write_wins() {
    let mut r = MetricsRepository::new();
    r.set_temperature(100);
    r.set_temperature(-3);
    r.set_humidity(10);
    r.set_humidity(99);
    assert_eq!(r.get_temperature(), Some(-3));
    assert_eq!(r.get_humidity(), Some(99));
}
