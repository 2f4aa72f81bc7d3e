use wifimanager::ap::dhcp_plan;
use wifimanager::error::{WifiFault, WmError};
use wifimanager::structs::{AutoSetupSettings, Configuration, StationAuth, WmReturn, WmSettings};

#[test]
fn the_default_settings() {
    let s: WmSettings<u8> = WmSettings::default(0x24_6f_28_ab_cd_ef, Some("<h1>built in</h1>"));
    assert_eq!(s.ssid, "ESP-246F28ABCDEF");
    assert_eq!(s.wifi_panel, "<h1>built in</h1>");
    assert_eq!(s.wifi_reconnect_time, 1000);
    assert_eq!(s.wifi_conn_timeout, 15000);
    assert_eq!(s.wifi_scan_interval, 15000);
    assert_eq!(s.esp_reset_timeout, None);
    assert!(!s.esp_restart_after_connection);
    assert_eq!(s.wifi_conn_signal, None);
    let s: WmSettings<u8> = WmSettings::default(0, None);
    assert_eq!(s.ssid, "ESP-0");
    assert_eq!(s.wifi_panel, "<h1>EMPTY PANEL</h1>");
}

#[test]
fn different_boards_have_different_names() {
    let a: WmSettings<u8> = WmSettings::default(0x0a, None);
    let b: WmSettings<u8> = WmSettings::default(0xa0, None);
    assert_ne!(a.ssid, b.ssid);
}

#[test]
fn settings_in_words() {
    let mut s: WmSettings<u8> = WmSettings::default(1, Some("<p>\"\n</p>"));
    assert_eq!(
        s.fmt(),
        "WmSettings { ssid: \"ESP-1\", wifi_panel: \"<p>\\\"\\n</p>\", wifi_conn_timeout: 15000, wifi_reconnect_time: 1000, wifi_scan_interval: 15000, esp_reset_timeout: None, esp_restart_after_connection: false, wifi_conn_signal: None }"
    );
    s.esp_reset_timeout = Some(60000);
    s.esp_restart_after_connection = true;
    s.wifi_conn_signal = Some(9);
    assert_eq!(
        s.fmt_quoted("A", "B"),
        "WmSettings { ssid: A, wifi_panel: B, wifi_conn_timeout: 15000, wifi_reconnect_time: 1000, wifi_scan_interval: 15000, esp_reset_timeout: Some(60000), esp_restart_after_connection: true, wifi_conn_signal: Some(\"Assigned\") }"
    );
}

fn details(psk: &str) -> AutoSetupSettings {
    AutoSetupSettings { ssid: String::from("home"), psk: String::from(psk), data: None }
}

#[test]
fn a_station_with_a_password() {
    let station = details("secret").to_station().ok().unwrap();
    assert_eq!(station.ssid, "home");
    match station.auth {
        StationAuth::Password(p) => assert_eq!(p, "secret"),
        StationAuth::Open => panic!(),
    }
}

#[test]
fn a_station_without_a_password_is_for_an_open_network() {
    match details("").to_configuration() {
        Ok(Configuration::Station(station)) => {
            assert_eq!(station.ssid, "home");
            assert!(matches!(station.auth, StationAuth::Open));
        }
        Err(_) => panic!(),
    }
}

#[test]
fn what_is_handed_back_in_words() {
    let mut r = WmReturn { data: None, ip_address: [192, 168, 4, 77] };
    assert_eq!(r.fmt(), "WmReturn { data: None, ip_address: [192, 168, 4, 77] }");
    r.data = Some(serde_json::Value::Bool(true));
    assert_eq!(r.fmt(), "WmReturn { data: Some(Bool(true)), ip_address: [192, 168, 4, 77] }");
    r.ip_address = [0, 10, 255, 1];
    assert_eq!(r.fmt_words(Some("x")), "WmReturn { data: Some(x), ip_address: [0, 10, 255, 1] }");
}

#[test]
fn the_radio_is_stopped_and_restarted() {
    let r = WmReturn { data: None, ip_address: [0; 4] };
    let mut pending = None;
    r.stop_radio(&mut pending);
    assert_eq!(pending, Some(true));
    r.restart_radio(&mut pending);
    assert_eq!(pending, Some(false));
    let mut taken = None;
    r.restart_radio(&mut taken);
    assert_eq!(taken, Some(false));
}

#[test]
fn errors_are_converted() {
    assert!(matches!(
        WmError::from(esp_nvs::error::Error::FlashError),
        WmError::NvsError(esp_nvs::error::Error::FlashError)
    ));
    assert!(matches!(
        WmError::from(WifiFault::InvalidSsid),
        WmError::WifiError(WifiFault::InvalidSsid)
    ));
    assert!(matches!(
        WmError::from(embassy_executor::SpawnError::Busy),
        WmError::TaskSpawnError
    ));
    let e = serde_json::from_str::<serde_json::Value>("{").err().unwrap();
    assert!(matches!(WmError::from(e), WmError::SerdeError(_)));
    assert!(matches!(WmError::from(()), WmError::Other));
}

#[test]
fn the_network_of_the_access_point() {
    let plan = dhcp_plan();
    assert_eq!(plan.start, [192, 168, 4, 100]);
    assert_eq!(plan.end, [192, 168, 4, 200]);
    assert_eq!(plan.ip, [192, 168, 4, 1]);
    assert_eq!(plan.lease_secs, 3600);
    assert_eq!(plan.gateways, vec![[192, 168, 4, 1]]);
    assert_eq!(plan.subnet, None);
    assert_eq!(plan.dns, vec![[192, 168, 4, 1]]);
    assert!(plan.use_captive_portal);
}
