//! The client's own settings: terminal limits, feature switches and the
//! highlighting customisations, with the rules that change them.

use vstd::prelude::*;
use crate::text::same_text;

verus! {

/// How IP addresses are coloured: one colour for all, or one for public and
/// one for private addresses (colours as `#RRGGBB` text).
#[derive(Debug, Clone)]
pub enum IpCustomization {
    Unified(String),
    Split { public: String, private: String },
}

/// A keyword to highlight, with its colour.
#[derive(Debug, Clone)]
pub struct KeywordTheme {
    pub id: uuid::Uuid,
    pub keyword: String,
    pub color: String,
    pub case_insensitive: bool,
}

/// The user's highlighting customisations.
#[derive(Debug, Clone)]
pub struct CustomizationConfig {
    pub ipv4: Option<IpCustomization>,
    pub ipv6: Option<IpCustomization>,
    pub keywords: Vec<KeywordTheme>,
}

impl Default for CustomizationConfig {
    fn default() -> (c: CustomizationConfig)
        ensures
            c.ipv4 is None,
            c.ipv6 is None,
            c.keywords@.len() == 0,
    {
        CustomizationConfig { ipv4: None, ipv6: None, keywords: Vec::new() }
    }
}

/// Settings of the terminal client itself (kept in plain text: they hold no
/// credentials).
#[derive(Debug, Clone)]
pub struct ClientConfig {
    /// Most lines kept in the scrollback; 0 disables it.
    pub max_scrollback_lines: usize,
    pub performance_mode: bool,
    pub global_icmp: bool,
    /// Lines scrolled per mouse-wheel step.
    pub scroll_lines: usize,
    pub enable_customization: bool,
    pub allow_multiple_access_to_same_host: bool,
    pub customization_data: CustomizationConfig,
    pub enable_auto_update: bool,
    pub terminal_font_size: u8,
    pub debug_mode: bool,
    /// Skips the confirmations shown before risky actions.
    pub ignore_security_warnings: bool,
}

/// The settings of a fresh installation.
pub open spec fn is_default_client_config(c: ClientConfig) -> bool {
    &&& c.max_scrollback_lines == 4000
    &&& !c.performance_mode
    &&& c.global_icmp
    &&& c.scroll_lines == 1
    &&& c.enable_customization
    &&& !c.allow_multiple_access_to_same_host
    &&& c.customization_data.ipv4 is None
    &&& c.customization_data.ipv6 is None
    &&& c.customization_data.keywords@.len() == 0
    &&& c.enable_auto_update
    &&& c.terminal_font_size == 14
    &&& !c.debug_mode
    &&& !c.ignore_security_warnings
}

impl Default for ClientConfig {
    fn default() -> (c: ClientConfig)
        ensures
            is_default_client_config(c),
    {
        ClientConfig {
            max_scrollback_lines: 4000,
            performance_mode: false,
            global_icmp: true,
            scroll_lines: 1,
            enable_customization: true,
            allow_multiple_access_to_same_host: false,
            customization_data: CustomizationConfig::default(),
            enable_auto_update: true,
            terminal_font_size: 14,
            debug_mode: false,
            ignore_security_warnings: false,
        }
    }
}

/// The value of switches that default to on when absent from a saved file.
pub fn default_true() -> (b: bool)
    ensures
        b,
{
    true
}

/// The wheel step used when a saved file has none.
pub fn default_scroll_lines() -> (n: usize)
    ensures
        n == 1,
{
    1
}

/// The font size used when a saved file has none.
pub fn default_terminal_font_size() -> (n: u8)
    ensures
        n == 14,
{
    14
}

/// `v` limited to `lo..=hi`.
pub open spec fn clamped(v: usize, lo: usize, hi: usize) -> usize {
    if v < lo { lo } else if v > hi { hi } else { v }
}

/// The font size set from the number `v` (at most 255): `v` limited to 1..=22.
pub open spec fn font_size_from(v: usize) -> u8 {
    clamped(v, 1, 22) as u8
}

/// Computes `font_size_from`.
fn font_size_of(v: usize) -> (r: u8)
    requires
        v <= 255,
    ensures
        r == font_size_from(v),
{
    if v < 1 { 1 } else if v > 22 { 22 } else { v as u8 }
}

/// The configuration after setting `key`.  Numeric settings take the parsed
/// number (`number`, absent when the text was no number) and are kept in
/// range: the scrollback at most 100000 lines, the wheel step 1 to 16, the
/// font size 1 to 22 (a number above 255 is no font size and changes
/// nothing).  Switches take `flag`.  Any other key changes nothing.
pub open spec fn setting_applied(c: ClientConfig, key: Seq<char>, number: Option<usize>, flag: Option<bool>) -> ClientConfig {
    if key == "max_scrollback_lines"@ {
        match number {
            Some(v) => ClientConfig { max_scrollback_lines: clamped(v, 0, 100000), ..c },
            None => c,
        }
    } else if key == "scroll_lines"@ {
        match number {
            Some(v) => ClientConfig { scroll_lines: clamped(v, 1, 16), ..c },
            None => c,
        }
    } else if key == "terminal_font_size"@ {
        match number {
            Some(v) => if v <= 255 { ClientConfig { terminal_font_size: font_size_from(v), ..c } } else { c },
            None => c,
        }
    } else {
        match flag {
            Some(b) => {
                if key == "performance_mode"@ { ClientConfig { performance_mode: b, ..c } }
                else if key == "global_icmp"@ { ClientConfig { global_icmp: b, ..c } }
                else if key == "enable_customization"@ { ClientConfig { enable_customization: b, ..c } }
                else if key == "allow_multiple_access_to_same_host"@ { ClientConfig { allow_multiple_access_to_same_host: b, ..c } }
                else if key == "enable_auto_update"@ { ClientConfig { enable_auto_update: b, ..c } }
                else if key == "debug_mode"@ { ClientConfig { debug_mode: b, ..c } }
                else { c }
            },
            None => c,
        }
    }
}

/// The numeric settings are within the ranges that changing them keeps:
/// the scrollback at most 100000 lines, the wheel step 1 to 16 lines, the
/// font size 1 to 22.
pub open spec fn settings_in_range(c: ClientConfig) -> bool {
    &&& c.max_scrollback_lines <= 100000
    &&& 1 <= c.scroll_lines <= 16
    &&& 1 <= c.terminal_font_size <= 22
}

/// A fresh configuration is in range, and changing any setting keeps it in
/// range.
pub proof fn law_settings_stay_in_range(c: ClientConfig, key: Seq<char>, number: Option<usize>, flag: Option<bool>)
    ensures
        is_default_client_config(c) ==> settings_in_range(c),
        settings_in_range(c) ==> settings_in_range(setting_applied(c, key, number, flag)),
{
}

impl ClientConfig {
    /// Changes one setting by its key (see `setting_applied`).
    pub fn apply_setting(&mut self, key: &str, number: Option<usize>, flag: Option<bool>)
        ensures
            *final(self) == setting_applied(*old(self), key@, number, flag),
    {
        if same_text(key, "max_scrollback_lines") {
            if let Some(v) = number {
                self.max_scrollback_lines = if v > 100000 { 100000 } else { v };
            }
        } else if same_text(key, "scroll_lines") {
            if let Some(v) = number {
                self.scroll_lines = if v < 1 { 1 } else if v > 16 { 16 } else { v };
            }
        } else if same_text(key, "terminal_font_size") {
            if let Some(v) = number {
                if v <= 255 {
                    self.terminal_font_size = font_size_of(v);
                }
            }
        } else if let Some(b) = flag {
            if same_text(key, "performance_mode") {
                self.performance_mode = b;
            } else if same_text(key, "global_icmp") {
                self.global_icmp = b;
            } else if same_text(key, "enable_customization") {
                self.enable_customization = b;
            } else if same_text(key, "allow_multiple_access_to_same_host") {
                self.allow_multiple_access_to_same_host = b;
            } else if same_text(key, "enable_auto_update") {
                self.enable_auto_update = b;
            } else if same_text(key, "debug_mode") {
                self.debug_mode = b;
            }
        }
    }
}

// ─── Customisations ─────────────────────────────────────────────────────────

/// Calls `uuid::Uuid::new_v4`: a random identifier, of which nothing is
/// stated.
#[verifier::external_body]
pub(crate) fn new_uuid() -> (id: uuid::Uuid) {
    uuid::Uuid::new_v4()
}

impl CustomizationConfig {
    /// Saves a keyword: an empty keyword is ignored; with `edit_index` the
    /// keyword at that index is replaced (nothing happens past the end),
    /// otherwise it is appended.  The saved keyword gets a fresh random id.
    pub fn save_keyword(&mut self, keyword: String, color: String, case_insensitive: bool, edit_index: Option<usize>)
        ensures
            old(self).ipv4 == final(self).ipv4,
            old(self).ipv6 == final(self).ipv6,
            keyword@.len() == 0 ==> final(self).keywords@ == old(self).keywords@,
            keyword@.len() > 0 ==> match edit_index {
                Some(i) => if i < old(self).keywords@.len() {
                    final(self).keywords@.len() == old(self).keywords@.len()
                        && (forall|j: int| 0 <= j < old(self).keywords@.len() && j != i ==> #[trigger] final(self).keywords@[j] == old(self).keywords@[j])
                        && final(self).keywords@[i as int].keyword == keyword
                        && final(self).keywords@[i as int].color == color
                        && final(self).keywords@[i as int].case_insensitive == case_insensitive
                } else {
                    final(self).keywords@ == old(self).keywords@
                },
                None => final(self).keywords@.len() == old(self).keywords@.len() + 1
                    && final(self).keywords@.take(old(self).keywords@.len() as int) == old(self).keywords@
                    && final(self).keywords@.last().keyword == keyword
                    && final(self).keywords@.last().color == color
                    && final(self).keywords@.last().case_insensitive == case_insensitive,
            },
    {
        if keyword.as_str().is_empty() {
            return;
        }
        let kw = KeywordTheme { id: new_uuid(), keyword, color, case_insensitive };
        match edit_index {
            Some(i) => {
                if i < self.keywords.len() {
                    self.keywords.set(i, kw);
                }
            },
            None => {
                self.keywords.push(kw);
                assert(self.keywords@.take(old(self).keywords@.len() as int) =~= old(self).keywords@);
            },
        }
    }

    /// Sets the IP colouring of `target` (`"ipv4"` or `"ipv6"`; any other
    /// target changes nothing).
    pub fn save_ip_customization(&mut self, target: &str, ip: IpCustomization)
        ensures
            final(self).keywords == old(self).keywords,
            final(self).ipv4 == if target@ == "ipv4"@ { Some(ip) } else { old(self).ipv4 },
            final(self).ipv6 == if target@ == "ipv6"@ && target@ != "ipv4"@ { Some(ip) } else { old(self).ipv6 },
    {
        if same_text(target, "ipv4") {
            self.ipv4 = Some(ip);
        } else if same_text(target, "ipv6") {
            self.ipv6 = Some(ip);
        }
    }

    /// Removes the keyword at `index` (nothing happens past the end).
    pub fn delete_keyword(&mut self, index: usize)
        ensures
            final(self).ipv4 == old(self).ipv4,
            final(self).ipv6 == old(self).ipv6,
            final(self).keywords@ == if index < old(self).keywords@.len() {
                old(self).keywords@.remove(index as int)
            } else {
                old(self).keywords@
            },
    {
        if index < self.keywords.len() {
            let _ = self.keywords.remove(index);
        }
    }
}

// ─── Settings schema ────────────────────────────────────────────────────────

/// A setting as the settings screen lists it.
#[derive(Debug, Clone)]
pub struct SettingDefinition {
    pub key: String,
    pub label: String,
    pub description: String,
    /// `"boolean"`, `"number"`, `"text"` or `"char"`.
    pub setting_type: String,
    pub category: String,
}

impl View for SettingDefinition {
    type V = (Seq<char>, Seq<char>, Seq<char>, Seq<char>, Seq<char>);

    open spec fn view(&self) -> Self::V {
        (self.key@, self.label@, self.description@, self.setting_type@, self.category@)
    }
}

impl SettingDefinition {
    /// A setting with the given texts.
    pub fn new(key: &str, label: &str, desc: &str, t: &str, cat: &str) -> (s: SettingDefinition)
        ensures
            s@ == (key@, label@, desc@, t@, cat@),
    {
        SettingDefinition {
            key: key.to_owned(),
            label: label.to_owned(),
            description: desc.to_owned(),
            setting_type: t.to_owned(),
            category: cat.to_owned(),
        }
    }
}

/// The settings shown on the settings screen, in order.
pub open spec fn settings_schema() -> Seq<(Seq<char>, Seq<char>, Seq<char>, Seq<char>, Seq<char>)> {
    seq![
        ("enable_auto_update"@, "Atualização Automática"@, "Busca e instala atualizações silenciosamente em segundo plano."@, "boolean"@, "Geral"@),
        ("allow_multiple_access_to_same_host"@, "Múltiplas Conexões"@, "Permitir abrir o mesmo Host várias vezes simultaneamente."@, "boolean"@, "Geral"@),
        ("global_icmp"@, "ICMP Global"@, "Monitorar o status online/offline dos Hosts automaticamente via Ping."@, "boolean"@, "Rede"@),
        ("terminal_font_size"@, "Tamanho da Fonte"@, "Tamanho da fonte renderizada no terminal (padrão 14)."@, "number"@, "Terminal"@),
        ("max_scrollback_lines"@, "Linhas de Histórico"@, "Máximo de linhas retidas no buffer para rolagem para cima."@, "number"@, "Terminal"@),
        ("scroll_lines"@, "Sensibilidade do Scroll"@, "Quantidade de linhas puladas a cada rolagem do mouse."@, "number"@, "Terminal"@),
        ("performance_mode"@, "Modo Performance"@, "Reduz as atualizações da UI para maximizar a fluidez."@, "boolean"@, "Terminal"@),
        ("enable_customization"@, "Personalização (Highlighter)"@, "Habilitar destaque inteligente de IPs e palavras customizadas."@, "boolean"@, "Personalização"@),
        ("ignore_security_warnings"@, "Ignorar Avisos de Segurança"@, "Desativa confirmações e alertas de risco ao habilitar protocolos obsoletos."@, "boolean"@, "Segurança"@),
        ("debug_mode"@, "Modo Debug"@, "Habilitar modo de diagnóstico extra (Requer reinício)."@, "boolean"@, "Avançado"@)
    ]
}

/// The settings screen's list of settings (see `settings_schema`).
pub fn get_settings_schema() -> (v: Vec<SettingDefinition>)
    ensures
        v@.len() == settings_schema().len(),
        forall|i: int| 0 <= i < v@.len() ==> #[trigger] v@[i]@ == settings_schema()[i],
{
    let mut v: Vec<SettingDefinition> = Vec::new();
    v.push(SettingDefinition::new("enable_auto_update", "Atualização Automática", "Busca e instala atualizações silenciosamente em segundo plano.", "boolean", "Geral"));
    v.push(SettingDefinition::new("allow_multiple_access_to_same_host", "Múltiplas Conexões", "Permitir abrir o mesmo Host várias vezes simultaneamente.", "boolean", "Geral"));
    v.push(SettingDefinition::new("global_icmp", "ICMP Global", "Monitorar o status online/offline dos Hosts automaticamente via Ping.", "boolean", "Rede"));
    v.push(SettingDefinition::new("terminal_font_size", "Tamanho da Fonte", "Tamanho da fonte renderizada no terminal (padrão 14).", "number", "Terminal"));
    v.push(SettingDefinition::new("max_scrollback_lines", "Linhas de Histórico", "Máximo de linhas retidas no buffer para rolagem para cima.", "number", "Terminal"));
    v.push(SettingDefinition::new("scroll_lines", "Sensibilidade do Scroll", "Quantidade de linhas puladas a cada rolagem do mouse.", "number", "Terminal"));
    v.push(SettingDefinition::new("performance_mode", "Modo Performance", "Reduz as atualizações da UI para maximizar a fluidez.", "boolean", "Terminal"));
    v.push(SettingDefinition::new("enable_customization", "Personalização (Highlighter)", "Habilitar destaque inteligente de IPs e palavras customizadas.", "boolean", "Personalização"));
    v.push(SettingDefinition::new("ignore_security_warnings", "Ignorar Avisos de Segurança", "Desativa confirmações e alertas de risco ao habilitar protocolos obsoletos.", "boolean", "Segurança"));
    v.push(SettingDefinition::new("debug_mode", "Modo Debug", "Habilitar modo de diagnóstico extra (Requer reinício).", "boolean", "Avançado"));
    v
}

} // verus!
