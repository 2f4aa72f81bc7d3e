//! Settings, connection details, and what the WiFi manager hands back.
use vstd::prelude::*;
use vstd::string::StringExecFns;

use crate::error::WmError;
use crate::text;

verus! {

/// A JSON value, `serde_json::Value`, carried as it is.
#[verifier::external_type_specification]
#[verifier::external_body]
pub struct ExValue(serde_json::Value);

/// The settings of the WiFi manager. `S` is the signal for connection changes.
#[derive(Clone)]
pub struct WmSettings<S> {
    /// The network name of the access point, and the host name.
    pub ssid: String,
    /// The page at the root of the web interface.
    pub wifi_panel: &'static str,
    /// How long a connection may take, in milliseconds.
    pub wifi_conn_timeout: u64,
    /// How long to wait after a lost connection, in milliseconds.
    pub wifi_reconnect_time: u64,
    /// How long to wait between two scans, in milliseconds.
    pub wifi_scan_interval: u64,
    /// After how long the board restarts while it waits to be set up, in milliseconds.
    pub esp_reset_timeout: Option<u64>,
    /// Whether the board restarts after the first connection that works.
    pub esp_restart_after_connection: bool,
    /// The signal that is sent when the station connects or disconnects.
    pub wifi_conn_signal: Option<S>,
}

/// The network name of a board without settings: its hardware address in hexadecimal.
pub open spec fn default_ssid(mac: u64) -> Seq<char> {
    "ESP-"@ + text::hex(mac as nat)
}

/// The page at the root where none is built in.
pub open spec fn empty_panel() -> Seq<char> {
    "<h1>EMPTY PANEL</h1>"@
}

/// What `{:?}` makes of a text: the text in quotes, with escapes.
pub uninterp spec fn quoted(s: Seq<char>) -> Seq<char>;

/// A text in quotes, with escapes.
///
/// Calls the `Debug` formatting of `str`. Which characters it escapes, and how, has only a name
/// here.
#[verifier::external_body]
fn quote(s: &str) -> (r: String)
    ensures
        r@ == quoted(s@),
{
    format!("{:?}", s)
}

/// A truth value in words.
pub open spec fn bool_word(b: bool) -> Seq<char> {
    if b {
        "true"@
    } else {
        "false"@
    }
}

/// An optional number in words.
pub open spec fn optional_number(n: Option<u64>) -> Seq<char> {
    match n {
        Some(n) => "Some("@ + text::decimal(n as nat) + ")"@,
        None => "None"@,
    }
}

impl<S> WmSettings<S> {
    /// The settings of a board that was not set up otherwise, from its hardware address and the
    /// page that is built in.
    pub fn default(mac: u64, built_in: Option<&'static str>) -> (r: WmSettings<S>)
        ensures
            r.ssid@ == default_ssid(mac),
            r.ssid@ == "ESP-"@ + text::hex(mac as nat),
            built_in is None ==> r.wifi_panel@ == "<h1>EMPTY PANEL</h1>"@,
            r.wifi_panel@ == (match built_in {
                Some(page) => page@,
                None => empty_panel(),
            }),
            r.wifi_reconnect_time == 1000,
            r.wifi_conn_timeout == 15000,
            r.wifi_scan_interval == 15000,
            r.esp_reset_timeout is None,
            !r.esp_restart_after_connection,
            r.wifi_conn_signal is None,
    {
        let mut ssid = String::from_str("ESP-");
        let address = text::hex_text(mac);
        ssid.append(address.as_str());
        let wifi_panel = match built_in {
            Some(page) => page,
            None => "<h1>EMPTY PANEL</h1>",
        };
        WmSettings {
            ssid,
            wifi_panel,
            wifi_reconnect_time: 1000,
            wifi_conn_timeout: 15000,
            wifi_scan_interval: 15000,
            esp_reset_timeout: None,
            esp_restart_after_connection: false,
            wifi_conn_signal: None,
        }
    }

    /// The settings in words, given the two texts among them in quotes. Of the signal only its
    /// presence is told.
    pub open spec fn words(&self, ssid: Seq<char>, wifi_panel: Seq<char>) -> Seq<char> {
        "WmSettings { ssid: "@ + ssid + ", wifi_panel: "@ + wifi_panel + ", wifi_conn_timeout: "@
            + text::decimal(self.wifi_conn_timeout as nat) + ", wifi_reconnect_time: "@
            + text::decimal(self.wifi_reconnect_time as nat) + ", wifi_scan_interval: "@
            + text::decimal(self.wifi_scan_interval as nat) + ", esp_reset_timeout: "@
            + optional_number(self.esp_reset_timeout) + ", esp_restart_after_connection: "@
            + bool_word(self.esp_restart_after_connection) + ", wifi_conn_signal: "@ + (
        match self.wifi_conn_signal {
            Some(_) => "Some(\"Assigned\")"@,
            None => "None"@,
        }) + " }"@
    }

    /// The settings in words, given the two texts among them in quotes.
    pub fn fmt_quoted(&self, ssid: &str, wifi_panel: &str) -> (r: String)
        ensures
            r@ == self.words(ssid@, wifi_panel@),
    {
        let mut s = String::from_str("WmSettings { ssid: ");
        s.append(ssid);
        s.append(", wifi_panel: ");
        s.append(wifi_panel);
        s.append(", wifi_conn_timeout: ");
        s.append(text::decimal_text(self.wifi_conn_timeout).as_str());
        s.append(", wifi_reconnect_time: ");
        s.append(text::decimal_text(self.wifi_reconnect_time).as_str());
        s.append(", wifi_scan_interval: ");
        s.append(text::decimal_text(self.wifi_scan_interval).as_str());
        s.append(", esp_reset_timeout: ");
        s.append(optional_number_text(self.esp_reset_timeout).as_str());
        s.append(", esp_restart_after_connection: ");
        s.append(
            if self.esp_restart_after_connection {
                "true"
            } else {
                "false"
            },
        );
        s.append(", wifi_conn_signal: ");
        s.append(
            match self.wifi_conn_signal {
                Some(_) => "Some(\"Assigned\")",
                None => "None",
            },
        );
        s.append(" }");
        s
    }

    /// The settings in words.
    pub fn fmt(&self) -> (r: String)
        ensures
            r@ == self.words(quoted(self.ssid@), quoted(self.wifi_panel@)),
    {
        let ssid = quote(self.ssid.as_str());
        let wifi_panel = quote(self.wifi_panel);
        self.fmt_quoted(ssid.as_str(), wifi_panel.as_str())
    }
}

/// An optional number in words.
fn optional_number_text(n: Option<u64>) -> (r: String)
    ensures
        r@ == optional_number(n),
{
    match n {
        Some(n) => {
            let mut s = String::from_str("Some(");
            s.append(text::decimal_text(n).as_str());
            s.append(")");
            s
        },
        None => String::from_str("None"),
    }
}

/// Boards with different hardware addresses have different network names.
pub proof fn default_ssids_differ(a: u64, b: u64)
    requires
        default_ssid(a) == default_ssid(b),
    ensures
        a == b,
{
    let n = "ESP-"@.len() as int;
    assert(default_ssid(a).skip(n) =~= text::hex(a as nat));
    assert(default_ssid(b).skip(n) =~= text::hex(b as nat));
    text::written_once(a as nat, b as nat, 16);
}

/// The connection details that are sent to the web interface.
#[derive(Clone, Debug)]
pub struct AutoSetupSettings {
    pub ssid: String,
    pub psk: String,
    pub data: Option<serde_json::Value>,
}

/// How a station shows that it may connect.
#[derive(Clone, Debug)]
pub enum StationAuth {
    /// The network is open.
    Open,
    /// The network asks for this password.
    Password(String),
}

/// The network that a station connects to.
#[derive(Clone, Debug)]
pub struct StationSettings {
    pub ssid: String,
    pub auth: StationAuth,
}

/// What the radio is to be.
#[derive(Clone, Debug)]
pub enum Configuration {
    Station(StationSettings),
}

impl StationSettings {
    /// Whether this is the station for a network name and a password: without a password the
    /// network is open.
    pub open spec fn is_for(&self, ssid: Seq<char>, psk: Seq<char>) -> bool {
        &&& self.ssid@ == ssid
        &&& match self.auth {
            StationAuth::Open => psk.len() == 0,
            StationAuth::Password(password) => psk.len() > 0 && password@ == psk,
        }
    }
}

impl AutoSetupSettings {
    /// The radio as a station for these details.
    pub fn to_configuration(&self) -> (r: Result<Configuration, WmError>)
        ensures
            r matches Ok(Configuration::Station(station)) && station.is_for(
                self.ssid@,
                self.psk@,
            ),
    {
        match self.to_station() {
            Ok(station) => Ok(Configuration::Station(station)),
            Err(e) => Err(e),
        }
    }

    /// The station for these details.
    pub fn to_station(&self) -> (r: Result<StationSettings, WmError>)
        ensures
            r matches Ok(station) && station.is_for(self.ssid@, self.psk@),
    {
        let auth = if self.psk.as_str().is_empty() {
            StationAuth::Open
        } else {
            StationAuth::Password(self.psk.clone())
        };
        Ok(StationSettings { ssid: self.ssid.clone(), auth })
    }
}

/// What the WiFi manager hands back once the station is connected.
pub struct WmReturn {
    /// The data that came with the connection details.
    pub data: Option<serde_json::Value>,
    /// The address of the station.
    pub ip_address: [u8; 4],
}

/// What `{:?}` makes of a JSON value.
pub uninterp spec fn value_words(value: serde_json::Value) -> Seq<char>;

/// A JSON value in words.
///
/// Calls the `Debug` formatting of `serde_json::Value`. What it writes has only a name here.
#[verifier::external_body]
fn describe(value: &serde_json::Value) -> (r: String)
    ensures
        r@ == value_words(*value),
{
    format!("{:?}", value)
}

/// The data in words, given the words for the value if there is one.
pub open spec fn data_words(value: Option<Seq<char>>) -> Seq<char> {
    match value {
        Some(words) => "Some("@ + words + ")"@,
        None => "None"@,
    }
}

/// The words for the value, if there is one.
pub open spec fn words_of(data: Option<serde_json::Value>) -> Option<Seq<char>> {
    match data {
        Some(value) => Some(value_words(value)),
        None => None,
    }
}

/// What is handed back in words, given the words for the data.
pub open spec fn return_words(data: Seq<char>, ip: Seq<u8>) -> Seq<char> {
    "WmReturn { data: "@ + data + ", ip_address: ["@ + text::decimal(ip[0] as nat) + ", "@
        + text::decimal(ip[1] as nat) + ", "@ + text::decimal(ip[2] as nat) + ", "@ + text::decimal(
        ip[3] as nat,
    ) + "] }"@
}

impl WmReturn {
    /// Tells the radio to disconnect and stop. `pending` is what it was told and has not taken
    /// note of yet; that is replaced.
    pub fn stop_radio(&self, pending: &mut Option<bool>)
        ensures
            *final(pending) == Some(true),
    {
        *pending = Some(true);
    }

    /// Tells the radio to start again and reconnect, which is for a radio that was stopped.
    /// `pending` is what it was told and has not taken note of yet; that is replaced, so of a stop
    /// and a restart it sees only the restart.
    pub fn restart_radio(&self, pending: &mut Option<bool>)
        ensures
            *final(pending) == Some(false),
    {
        *pending = Some(false);
    }

    /// What is handed back in words, given the words for the value if there is one.
    pub fn fmt_words(&self, value: Option<&str>) -> (r: String)
        ensures
            r@ == return_words(
                data_words(
                    match value {
                        Some(words) => Some(words@),
                        None => None,
                    },
                ),
                self.ip_address@,
            ),
    {
        let mut s = String::from_str("WmReturn { data: ");
        match value {
            Some(words) => {
                let mut data = String::from_str("Some(");
                data.append(words);
                data.append(")");
                s.append(data.as_str());
            },
            None => {
                s.append("None");
            },
        }
        s.append(", ip_address: [");
        s.append(text::decimal_text(self.ip_address[0] as u64).as_str());
        s.append(", ");
        s.append(text::decimal_text(self.ip_address[1] as u64).as_str());
        s.append(", ");
        s.append(text::decimal_text(self.ip_address[2] as u64).as_str());
        s.append(", ");
        s.append(text::decimal_text(self.ip_address[3] as u64).as_str());
        s.append("] }");
        s
    }

    /// What is handed back in words.
    pub fn fmt(&self) -> (r: String)
        ensures
            r@ == return_words(data_words(words_of(self.data)), self.ip_address@),
    {
        match &self.data {
            Some(value) => {
                let words = describe(value);
                self.fmt_words(Some(words.as_str()))
            },
            None => self.fmt_words(None),
        }
    }
}

/// The network name of a board is `ESP-` and its hardware address in hexadecimal, whatever that is.
pub proof fn boards_are_named_by_their_address(mac: u64)
    ensures
        default_ssid(mac) == "ESP-"@ + text::hex(mac as nat),
        empty_panel() == "<h1>EMPTY PANEL</h1>"@,
{
}

/// The settings in words tell every setting: both texts, the three times, the timeout if there is
/// one, whether to restart, and whether there is a signal. The numbers are told in decimal,
/// whatever they are.
pub proof fn settings_tell_every_setting<S>(s: WmSettings<S>, ssid: Seq<char>, panel: Seq<char>)
    ensures
        ({
            let timeout = match s.esp_reset_timeout {
                Some(n) => "Some("@ + text::decimal(n as nat) + ")"@,
                None => "None"@,
            };
            let restart = if s.esp_restart_after_connection {
                "true"@
            } else {
                "false"@
            };
            let signal = if s.wifi_conn_signal is Some {
                "Some(\"Assigned\")"@
            } else {
                "None"@
            };
            s.words(ssid, panel) == "WmSettings { ssid: "@ + ssid + ", wifi_panel: "@ + panel
                + ", wifi_conn_timeout: "@ + text::decimal(s.wifi_conn_timeout as nat)
                + ", wifi_reconnect_time: "@ + text::decimal(s.wifi_reconnect_time as nat)
                + ", wifi_scan_interval: "@ + text::decimal(s.wifi_scan_interval as nat)
                + ", esp_reset_timeout: "@ + timeout + ", esp_restart_after_connection: "@ + restart
                + ", wifi_conn_signal: "@ + signal + " }"@
        }),
{
}

/// Different timeouts, and different choices, are told in different words.
pub proof fn different_choices_are_told_differently(a: Option<u64>, b: Option<u64>, x: bool, y: bool)
    requires
        optional_number(a) == optional_number(b),
        bool_word(x) == bool_word(y),
    ensures
        a == b,
        x == y,
{
    reveal_strlit("true");
    reveal_strlit("false");
    reveal_strlit("None");
    reveal_strlit("Some(");
    reveal_strlit(")");
    assert("true"@.len() == 4 && "false"@.len() == 5);
    match (a, b) {
        (Some(m), Some(n)) => {
            let p = optional_number(a);
            assert(p.subrange(5, p.len() - 1) =~= text::decimal(m as nat));
            let q = optional_number(b);
            assert(q.subrange(5, q.len() - 1) =~= text::decimal(n as nat));
            text::written_once(m as nat, n as nat, 10);
        },
        (Some(_), None) => {
            assert(optional_number(a)[0] == 'S' && optional_number(b)[0] == 'N');
        },
        (None, Some(_)) => {
            assert(optional_number(b)[0] == 'S' && optional_number(a)[0] == 'N');
        },
        (None, None) => {},
    }
}

/// What is handed back in words tells the data and the four numbers of the address, whatever they
/// are.
pub proof fn returns_tell_data_and_address(
    value: Option<Seq<char>>,
    data: Option<serde_json::Value>,
    ip: [u8; 4],
)
    ensures
        ({
            let told = match value {
                Some(words) => "Some("@ + words + ")"@,
                None => "None"@,
            };
            return_words(data_words(value), ip@) == "WmReturn { data: "@ + told + ", ip_address: ["@
                + text::decimal(ip@[0] as nat) + ", "@ + text::decimal(ip@[1] as nat) + ", "@
                + text::decimal(ip@[2] as nat) + ", "@ + text::decimal(ip@[3] as nat) + "] }"@
        }),
        data matches Some(v) ==> words_of(data) == Some(value_words(v)),
        data is None ==> words_of(data) is None,
{
}

/// A station is for a network name and a password when it has that name, and that password, or
/// none if the password is empty, however long they are.
pub proof fn stations_keep_name_and_password(s: StationSettings, ssid: Seq<char>, psk: Seq<char>)
    ensures
        s.is_for(ssid, psk) <==> s.ssid@ == ssid && (psk.len() == 0 && s.auth is Open || psk.len()
            > 0 && s.auth is Password && s.auth->Password_0@ == psk),
{
}

} // verus!
