use rayfish::logdir::{log_dir, log_dir_under};
use rayfish::platform::Platform;
use std::path::PathBuf;

#[test]
fn platforms_with_a_place_for_logs_use_it() {
    assert_eq!(log_dir(Platform::Linux), PathBuf::from("/var/log/rayfish"));
    assert_eq!(log_dir(Platform::MacOs), PathBuf::from("/Library/Logs/rayfish"));
}

#[test]
fn others_log_below_the_configuration_directory() {
    assert_eq!(
        log_dir_under(Some(PathBuf::from("/home/alice/.config"))),
        PathBuf::from("/home/alice/.config/rayfish/logs")
    );
    assert_eq!(log_dir_under(None), PathBuf::from("./rayfish/logs"));
    assert_eq!(log_dir(Platform::Windows), log_dir_under(dirs::config_dir()));
    assert_eq!(log_dir(Platform::FreeBsd), log_dir_under(dirs::config_dir()));
    assert_eq!(log_dir(Platform::OpenBsd), log_dir_under(dirs::config_dir()));
    assert!(log_dir(Platform::Android).ends_with("rayfish/logs"));
}
