use synchronizer::config::Config;
use synchronizer::paths::construct_run_path;

#[test]
fn run_number_is_zero_padded_to_four_digits() {
    assert_eq!(construct_run_path("/data", 7), "/data/run_0007.h5");
    assert_eq!(construct_run_path("/data", 0), "/data/run_0000.h5");
    assert_eq!(construct_run_path("/data", 55), "/data/run_0055.h5");
    assert_eq!(construct_run_path("/data", 123), "/data/run_0123.h5");
}

#[test]
fn long_run_numbers_keep_all_their_digits() {
    assert_eq!(construct_run_path("/data", 1000), "/data/run_1000.h5");
    assert_eq!(construct_run_path("/x", 12345), "/x/run_12345.h5");
}

#[test]
fn default_config_is_the_empty_template() {
    let c = Config::default();
    assert_eq!(c.merger_path, "");
    assert_eq!(c.sync_path, "");
    assert_eq!(c.min_run, 0);
    assert_eq!(c.max_run, 0);
}
