//! State of the connection manager's forms and screens.

use vstd::prelude::*;

verus! {

/// The new-host form.  `error` is `None` while the fields are valid.
#[derive(Debug, Clone)]
pub struct NewHostForm {
    /// Display name of the host.
    pub name: String,
    /// An IP address; a domain name only when `allow_domain` is set.
    pub address: String,
    /// The port as typed (text, so that it can be edited freely).
    pub port: String,
    pub username: String,
    /// Held in clear only while the form is open; protected when saved.
    pub password: String,
    pub allow_domain: bool,
    pub show_password: bool,
    /// Whether the host is pinged periodically.
    pub enable_icmp: bool,
    pub error: Option<String>,
}

impl Default for NewHostForm {
    fn default() -> (f: NewHostForm)
        ensures
            f.name@.len() == 0 && f.address@.len() == 0 && f.port@.len() == 0,
            f.username@.len() == 0 && f.password@.len() == 0,
            !f.allow_domain && !f.show_password && !f.enable_icmp && f.error is None,
    {
        NewHostForm {
            name: String::new(),
            address: String::new(),
            port: String::new(),
            username: String::new(),
            password: String::new(),
            allow_domain: false,
            show_password: false,
            enable_icmp: false,
            error: None,
        }
    }
}

impl NewHostForm {
    /// An empty form with port 22 and the ping enabled.
    pub fn new() -> (f: NewHostForm)
        ensures
            f.port@ == "22"@,
            f.enable_icmp,
            f.name@.len() == 0 && f.address@.len() == 0,
            f.username@.len() == 0 && f.password@.len() == 0,
            !f.allow_domain && !f.show_password && f.error is None,
    {
        NewHostForm { port: "22".to_owned(), enable_icmp: true, ..NewHostForm::default() }
    }
}

/// The protocols of the quick-connect form.
#[derive(Debug, Clone, Copy, PartialEq, Eq, Structural)]
pub enum QuickConnectProtocol {
    Ssh,
    Telnet,
    Serial,
}

/// The quick-connect form.
#[derive(Debug, Clone)]
pub struct QuickConnectForm {
    pub protocol: QuickConnectProtocol,
    pub address: String,
    pub port: String,
    pub username: String,
    pub password: String,
    pub allow_domain: bool,
    pub show_password: bool,
    pub error: Option<String>,
}

impl Default for QuickConnectForm {
    fn default() -> (f: QuickConnectForm)
        ensures
            f.protocol == QuickConnectProtocol::Ssh,
            f.port@ == "22"@,
            f.address@.len() == 0 && f.username@.len() == 0 && f.password@.len() == 0,
            !f.allow_domain && !f.show_password && f.error is None,
    {
        QuickConnectForm {
            protocol: QuickConnectProtocol::Ssh,
            address: String::new(),
            port: "22".to_owned(),
            username: String::new(),
            password: String::new(),
            allow_domain: false,
            show_password: false,
            error: None,
        }
    }
}

/// Which customisation screen is open.
#[derive(Debug, Clone, PartialEq, Eq, Structural)]
pub enum CustomizationViewMode {
    List,
    EditIpv4,
    EditIpv6,
    /// A new keyword (`None`) or the keyword at an index.
    EditKeyword(Option<usize>),
}

/// The customisation screen's fields.
#[derive(Debug, Clone)]
pub struct CustomizationState {
    pub mode: CustomizationViewMode,
    pub kw_keyword: String,
    pub kw_color: String,
    pub kw_case_insensitive: bool,
    pub kw_error: Option<String>,
    pub ip_split: bool,
    pub ip_unified_color: String,
    pub ip_public_color: String,
    pub ip_private_color: String,
}

impl Default for CustomizationState {
    fn default() -> (s: CustomizationState)
        ensures
            s.mode == CustomizationViewMode::List,
            s.kw_keyword@.len() == 0,
            s.kw_color@ == "#FF7300"@,
            !s.kw_case_insensitive && s.kw_error is None && !s.ip_split,
            s.ip_unified_color@ == "#FF7300"@,
            s.ip_public_color@ == "#33D980"@,
            s.ip_private_color@ == "#F24C4C"@,
    {
        CustomizationState {
            mode: CustomizationViewMode::List,
            kw_keyword: String::new(),
            kw_color: "#FF7300".to_owned(),
            kw_case_insensitive: false,
            kw_error: None,
            ip_split: false,
            ip_unified_color: "#FF7300".to_owned(),
            ip_public_color: "#33D980".to_owned(),
            ip_private_color: "#F24C4C".to_owned(),
        }
    }
}

/// The screens of the connection manager (a terminal opens in a process of
/// its own, not as a screen).
#[derive(Debug, Clone)]
pub enum Screen {
    Home,
    NewHost,
    QuickConnect,
    Settings,
    Customization,
    Documentation(Option<String>),
}

/// What the connection manager's screens report.
#[derive(Debug)]
pub enum Message {
    SwitchView(Screen),
    FormNameChanged(String),
    FormAddressChanged(String),
    FormPortChanged(String),
    FormUsernameChanged(String),
    FormPasswordChanged(String),
    FormToggleDomain(bool),
    FormToggleIcmp(bool),
    FormTogglePassword,
    FormSave,
    FormCancel,
    QcProtocolSelected(QuickConnectProtocol),
    QcAddressChanged(String),
    QcPortChanged(String),
    QcUsernameChanged(String),
    QcPasswordChanged(String),
    QcToggleDomain(bool),
    QcTogglePassword,
    QcConnect,
    QcCancel,
    /// Opens a terminal for the named host in a new process.
    OpenTerminal(String),
    /// Asks to confirm deleting the host at this index.
    RequestDeleteHost(usize),
    ConfirmDeleteHost,
    CancelDeleteHost,
    /// Edits the host at this index.
    EditHost(usize),
    SettingsMaxScrollbackChanged(String),
    SettingsScrollLinesChanged(String),
    SettingsCommandPaletteKeyChanged(String),
    SettingsPerformanceModeToggled(bool),
    SettingsGlobalIcmpToggled(bool),
    SettingsCustomizationToggled(bool),
    CustomizationOpen(CustomizationViewMode),
    CustomizationClose,
    KwKeywordChanged(String),
    KwColorChanged(String),
    KwCaseInsensitiveToggled(bool),
    KwSave,
    KwDelete(usize),
    IpSplitToggled(bool),
    IpUnifiedColorChanged(String),
    IpPublicColorChanged(String),
    IpPrivateColorChanged(String),
    IpSave,
    OpenDeveloperWebsite,
    Tick(()),
    IcmpResult(usize, bool),
}

} // verus!
